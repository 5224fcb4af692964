//! Lines, words, and putting them together again.

use crate::chars::{
    chars_of, is_boundary, is_white_space, lemma_encode_concat, lemma_prefix_is_boundary,
    lemma_suffix_at_prefix, split_chars, suffix_at, utf8_len,
};
use crate::text::{has_prefix, CharSet};
use vstd::prelude::*;

verus! {

/// How far the first line of `t` goes: to the first line feed, or to the end.
pub open spec fn line_end(t: Seq<char>) -> nat
    decreases t.len(),
{
    if t.len() == 0 || t[0] == '\n' {
        0
    } else {
        1 + line_end(t.drop_first())
    }
}

/// `t` without the carriage return that it may end with.
pub open spec fn without_return(t: Seq<char>) -> Seq<char> {
    if t.len() > 0 && t.last() == '\r' {
        t.drop_last()
    } else {
        t
    }
}

/// The lines of `t`. A line ends with `\n` or `\r\n`, which is no part of it; the last line
/// may end with the text.
pub open spec fn lines_of(t: Seq<char>) -> Seq<Seq<char>>
    decreases t.len(),
{
    let end = line_end(t) as int;
    if t.len() == 0 {
        seq![]
    } else if end < t.len() {
        seq![without_return(t.take(end))] + lines_of(t.skip(end + 1))
    } else {
        seq![t]
    }
}

/// A line ends within its text, and at a line feed if not at the end of the text.
pub broadcast proof fn lemma_line_end(t: Seq<char>)
    ensures
        #[trigger] line_end(t) <= t.len(),
        line_end(t) < t.len() ==> t[line_end(t) as int] == '\n',
        forall|i: int| 0 <= i < line_end(t) ==> t[i] != '\n',
    decreases t.len(),
{
    if t.len() > 0 && t[0] != '\n' {
        lemma_line_end(t.drop_first());
        assert forall|i: int| 0 <= i < line_end(t) implies t[i] != '\n' by {
            if i > 0 {
                assert(t[i] == t.drop_first()[i - 1]);
            }
        }
    }
}

/// The lines of `t` up to their `\n`, each with the byte offset of its start, which counts from
/// `base`.
pub open spec fn offset_lines_from(t: Seq<char>, base: nat) -> Seq<(nat, Seq<char>)>
    decreases t.len(),
{
    let end = line_end(t) as int;
    if t.len() == 0 {
        seq![]
    } else if end < t.len() {
        seq![(base, t.take(end))] + offset_lines_from(
            t.skip(end + 1),
            base + utf8_len(t.take(end + 1)),
        )
    } else {
        seq![(base, t)]
    }
}

/// The lines of `t` up to their `\n`, each with the byte offset of its start.
pub open spec fn offset_lines(t: Seq<char>) -> Seq<(nat, Seq<char>)> {
    offset_lines_from(t, 0)
}

/// `parts` with `separator` between them.
pub open spec fn joined(parts: Seq<Seq<char>>, separator: char) -> Seq<char>
    decreases parts.len(),
{
    if parts.len() == 0 {
        seq![]
    } else if parts.len() == 1 {
        parts[0]
    } else {
        joined(parts.drop_last(), separator).push(separator) + parts.last()
    }
}

/// `parts` as the lines of one text.
pub open spec fn joined_lines(parts: Seq<Seq<char>>) -> Seq<char> {
    joined(parts, '\n')
}

/// The longest run of characters without white space at the start of `t`.
pub open spec fn word_end(t: Seq<char>) -> nat
    decreases t.len(),
{
    if t.len() == 0 || is_white_space(t[0]) {
        0
    } else {
        1 + word_end(t.drop_first())
    }
}

/// A word ends within its text, at white space or at the end of the text.
pub broadcast proof fn lemma_word_end(t: Seq<char>)
    ensures
        #[trigger] word_end(t) <= t.len(),
        word_end(t) < t.len() ==> is_white_space(t[word_end(t) as int]),
        forall|i: int| 0 <= i < word_end(t) ==> !is_white_space(t[i]),
    decreases t.len(),
{
    if t.len() > 0 && !is_white_space(t[0]) {
        lemma_word_end(t.drop_first());
        assert forall|i: int| 0 <= i < word_end(t) implies !is_white_space(t[i]) by {
            if i > 0 {
                assert(t[i] == t.drop_first()[i - 1]);
            }
        }
    }
}

/// The words of `t`: its longest runs of characters without white space.
pub open spec fn words_of(t: Seq<char>) -> Seq<Seq<char>>
    decreases t.len(),
{
    proof {
        lemma_word_end(t);
    }
    let end = word_end(t) as int;
    if t.len() == 0 {
        seq![]
    } else if end == 0 {
        words_of(t.drop_first())
    } else {
        seq![t.take(end)] + words_of(t.skip(end))
    }
}

/// `t` with one blank between its words and none around them.
pub open spec fn normalized(t: Seq<char>) -> Seq<char> {
    joined(words_of(t), ' ')
}

/// `t` without the characters of `set`.
pub open spec fn without_chars(t: Seq<char>, set: CharSet) -> Seq<char>
    decreases t.len(),
{
    if t.len() == 0 {
        seq![]
    } else if set.contains(t.last()) {
        without_chars(t.drop_last(), set)
    } else {
        without_chars(t.drop_last(), set).push(t.last())
    }
}

/// `t` without its white space.
pub open spec fn compacted(t: Seq<char>) -> Seq<char> {
    without_chars(t, CharSet::Space)
}

/// The lines before the first that satisfies `stop`.
pub open spec fn lines_before(
    lines: Seq<Seq<char>>,
    stop: spec_fn(Seq<char>) -> bool,
) -> Seq<Seq<char>>
    decreases lines.len(),
{
    if lines.len() == 0 || stop(lines[0]) {
        seq![]
    } else {
        seq![lines[0]] + lines_before(lines.drop_first(), stop)
    }
}

/// The first `count` lines are those before the first that satisfies `stop`, if none of them
/// does and the next one does or there is none.
pub proof fn lemma_lines_before(
    lines: Seq<Seq<char>>,
    stop: spec_fn(Seq<char>) -> bool,
    count: int,
)
    requires
        0 <= count <= lines.len(),
        forall|i: int| 0 <= i < count ==> !stop(#[trigger] lines[i]),
        count < lines.len() ==> stop(lines[count]),
    ensures
        lines_before(lines, stop) == lines.take(count),
    decreases lines.len(),
{
    if count > 0 {
        assert forall|i: int| 0 <= i < count - 1 implies !stop(
            #[trigger] lines.drop_first()[i],
        ) by {
            assert(lines.drop_first()[i] == lines[i + 1]);
        }
        lemma_lines_before(lines.drop_first(), stop, count - 1);
        assert(lines.take(count) =~= seq![lines[0]] + lines.drop_first().take(count - 1));
    } else {
        assert(lines.take(0) =~= seq![]);
    }
}

/// How far the first line of `chars` from `from` on goes.
fn find_line_end(chars: &Vec<char>, from: usize) -> (end: usize)
    requires
        from <= chars@.len(),
    ensures
        end == from + line_end(chars@.skip(from as int)),
        end <= chars@.len(),
{
    let mut end: usize = from;
    while end < chars.len() && chars[end] != '\n'
        invariant
            from <= end <= chars@.len(),
            end - from + line_end(chars@.skip(end as int)) == line_end(chars@.skip(from as int)),
        decreases chars@.len() - end,
    {
        assert(chars@.skip(end as int).drop_first() =~= chars@.skip(end + 1));
        end = end + 1;
    }
    end
}

/// `text` without the carriage return that it may end with.
fn strip_return<'a>(text: &'a str) -> (r: &'a str)
    ensures
        r@ == without_return(text@),
{
    let chars = chars_of(text);
    let n: usize = chars.len();
    if n > 0 && chars[n - 1] == '\r' {
        let parts = split_chars(text, n - 1);
        assert(text@.take(n - 1) =~= text@.drop_last());
        parts.0
    } else {
        text
    }
}

/// The lines of `text`.
pub fn lines<'a>(text: &'a str) -> (r: Vec<&'a str>)
    ensures
        r.deep_view() == lines_of(text@),
{
    let chars = chars_of(text);
    let mut found: Vec<&'a str> = Vec::new();
    let mut rest: &'a str = text;
    let mut at: usize = 0;
    assert(text@.skip(0) =~= text@);
    assert(found.deep_view() + lines_of(rest@) =~= lines_of(text@));
    while at < chars.len()
        invariant
            at <= chars@.len(),
            chars@ == text@,
            rest@ == text@.skip(at as int),
            found.deep_view() + lines_of(rest@) == lines_of(text@),
        decreases chars@.len() - at,
    {
        let end: usize = find_line_end(&chars, at);
        let ghost before = found.deep_view();
        if end < chars.len() {
            let parts = split_chars(rest, end - at);
            let line = strip_return(parts.0);
            let tail = split_chars(parts.1, 1);
            found.push(line);
            proof {
                let t = rest@;
                let n = line_end(t) as int;
                assert(tail.1@ =~= t.skip(n + 1));
                assert(lines_of(t) == seq![line@] + lines_of(t.skip(n + 1)));
                assert(found.deep_view() =~= before.push(line@));
                assert(before + lines_of(t) =~= found.deep_view() + lines_of(tail.1@));
                assert(tail.1@ =~= text@.skip(end + 1));
            }
            rest = tail.1;
            at = end + 1;
        } else {
            found.push(rest);
            proof {
                assert(found.deep_view() =~= before.push(rest@));
                assert(lines_of(rest@) == seq![rest@]);
                assert(before + lines_of(rest@) =~= found.deep_view());
                assert(text@.skip(end as int) =~= Seq::<char>::empty());
                assert(found.deep_view() + lines_of(text@.skip(end as int)) =~= found.deep_view());
            }
            rest = split_chars(rest, end - at).1;
            assert(rest@ =~= text@.skip(end as int));
            at = end;
        }
    }
    assert(lines_of(rest@) =~= seq![]);
    assert(found.deep_view() + lines_of(rest@) =~= found.deep_view());
    found
}

/// `parts` as the lines of one text.
pub fn join_lines(parts: &[&str]) -> (r: String)
    ensures
        r@ == joined_lines(parts.deep_view()),
{
    let mut out = String::new();
    let mut i: usize = 0;
    let ghost all = parts.deep_view();
    while i < parts.len()
        invariant
            i <= parts@.len(),
            all == parts.deep_view(),
            out@ == joined_lines(all.take(i as int)),
        decreases parts@.len() - i,
    {
        proof {
            reveal_strlit("\n");
            assert("\n"@ =~= seq!['\n']);
            assert(all.take(i + 1).drop_last() =~= all.take(i as int));
            assert(all.take(i + 1).last() == parts@[i as int]@);
        }
        if i > 0 {
            out.append("\n");
        }
        out.append(parts[i]);
        assert(out@ =~= joined_lines(all.take(i + 1)));
        i = i + 1;
    }
    assert(all.take(i as int) =~= all);
    out
}

/// `parts` as the lines of one text.
pub fn join_strings(parts: &Vec<String>) -> (r: String)
    ensures
        r@ == joined_lines(parts.deep_view()),
{
    let mut slices: Vec<&str> = Vec::new();
    let mut i: usize = 0;
    while i < parts.len()
        invariant
            i <= parts@.len(),
            slices.deep_view() == parts.deep_view().take(i as int),
        decreases parts@.len() - i,
    {
        let ghost before = slices.deep_view();
        slices.push(parts[i].as_str());
        proof {
            assert(slices.deep_view() =~= before.push(parts@[i as int]@));
            assert(parts.deep_view().take(i + 1) =~= before.push(parts@[i as int]@));
        }
        i = i + 1;
    }
    assert(parts.deep_view().take(i as int) =~= parts.deep_view());
    join_lines(slices.as_slice())
}

/// The entries of [`each_line`] as characters.
pub open spec fn entries(found: Seq<(usize, &str)>) -> Seq<(nat, Seq<char>)> {
    Seq::new(found.len(), |i: int| (found[i].0 as nat, found[i].1@))
}

/// Whether the offset of `entry` is a character boundary of `t`, from which `t` goes on with
/// the line of `entry`.
pub open spec fn stands_in(entry: (nat, Seq<char>), t: Seq<char>) -> bool {
    is_boundary(t, entry.0) && has_prefix(suffix_at(t, entry.0), entry.1)
}

/// Every entry of [`offset_lines`] stands in its text where its offset says.
pub proof fn lemma_offset_lines(t: Seq<char>)
    ensures
        forall|i: int| 0 <= i < offset_lines(t).len() ==> stands_in(#[trigger] offset_lines(t)[i], t),
{
    let none = Seq::<char>::empty();
    lemma_offset_lines_from(none, t);
    assert(none + t =~= t);
    assert(utf8_len(none) == 0);
}

proof fn lemma_offset_lines_from(before: Seq<char>, t: Seq<char>)
    ensures
        forall|i: int|
            0 <= i < offset_lines_from(t, utf8_len(before)).len() ==> stands_in(
                #[trigger] offset_lines_from(t, utf8_len(before))[i],
                before + t,
            ),
    decreases t.len(),
{
    let found = offset_lines_from(t, utf8_len(before));
    if t.len() > 0 {
        let end = line_end(t) as int;
        lemma_line_end(t);
        lemma_prefix_is_boundary(before, t);
        lemma_suffix_at_prefix(before, t);
        if end < t.len() {
            let next = before + t.take(end + 1);
            let rest = t.skip(end + 1);
            lemma_encode_concat(before, t.take(end + 1));
            assert(next + rest =~= before + t);
            lemma_offset_lines_from(next, rest);
            let later = offset_lines_from(rest, utf8_len(next));
            assert forall|i: int| 0 <= i < found.len() implies stands_in(
                #[trigger] found[i],
                before + t,
            ) by {
                if i > 0 {
                    assert(found[i] == later[i - 1]);
                }
            }
        } else {
            assert(t.take(t.len() as int) =~= t);
        }
    }
}

/// The lines of `text` up to their `\n`, each with the byte offset of its start.
pub fn each_line<'a>(text: &'a str) -> (r: Vec<(usize, &'a str)>)
    ensures
        entries(r@) == offset_lines(text@),
{
    let chars = chars_of(text);
    let total: usize = text.as_bytes().len();
    let mut found: Vec<(usize, &'a str)> = Vec::new();
    let mut rest: &'a str = text;
    let mut at: usize = 0;
    let mut offset: usize = 0;
    assert(text@.skip(0) =~= text@);
    assert(entries(found@) + offset_lines(text@) =~= offset_lines(text@));
    while at < chars.len()
        invariant
            at <= chars@.len(),
            chars@ == text@,
            total == utf8_len(text@),
            rest@ == text@.skip(at as int),
            offset == utf8_len(text@.take(at as int)),
            entries(found@) + offset_lines_from(rest@, offset as nat) == offset_lines(text@),
        decreases chars@.len() - at,
    {
        let end: usize = find_line_end(&chars, at);
        let ghost before = entries(found@);
        let ghost t = rest@;
        let ghost n = line_end(t) as int;
        if end < chars.len() {
            let line = split_chars(rest, end - at);
            let cut = split_chars(rest, end - at + 1);
            found.push((offset, line.0));
            proof {
                assert(entries(found@) =~= before.push((offset as nat, line.0@)));
                let head = text@.take(at as int);
                assert(text@.take(end + 1) =~= head + t.take(n + 1));
                lemma_encode_concat(head, t.take(n + 1));
                assert(text@ =~= text@.take(end + 1) + text@.skip(end + 1));
                lemma_encode_concat(text@.take(end + 1), text@.skip(end + 1));
                assert(cut.1@ =~= text@.skip(end + 1));
            }
            offset = offset + cut.0.as_bytes().len();
            rest = cut.1;
            at = end + 1;
            assert(before + offset_lines_from(t, (offset - utf8_len(t.take(n + 1))) as nat)
                =~= entries(found@) + offset_lines_from(rest@, offset as nat));
        } else {
            found.push((offset, rest));
            proof {
                assert(entries(found@) =~= before.push((offset as nat, rest@)));
                assert(text@.take(end as int) =~= text@);
            }
            rest = split_chars(rest, end - at).1;
            proof {
                assert(rest@ =~= text@.skip(end as int));
                assert(before + offset_lines_from(t, offset as nat) =~= entries(found@)
                    + offset_lines_from(rest@, total as nat));
            }
            offset = total;
            at = end;
        }
    }
    assert(entries(found@) + offset_lines_from(rest@, offset as nat) =~= entries(found@));
    found
}

/// `text` with one blank between its words and none around them.
pub fn normalize_ws(text: &str) -> (r: String)
    ensures
        r@ == normalized(text@),
{
    let chars = chars_of(text);
    let mut out = String::new();
    let mut rest: &str = text;
    let mut at: usize = 0;
    let ghost mut done: Seq<Seq<char>> = Seq::empty();
    assert(text@.skip(0) =~= text@);
    assert(done + words_of(text@) =~= words_of(text@));
    while at < chars.len()
        invariant
            at <= chars@.len(),
            chars@ == text@,
            rest@ == text@.skip(at as int),
            done + words_of(rest@) == words_of(text@),
            out@ == joined(done, ' '),
            (out@.len() == 0) == (done.len() == 0),
        decreases chars@.len() - at,
    {
        let end: usize = find_word_end(&chars, at);
        let ghost t = rest@;
        proof {
            lemma_word_end(t);
        }
        if end == at {
            rest = split_chars(rest, 1).1;
            assert(rest@ =~= t.drop_first());
            at = at + 1;
            assert(rest@ =~= text@.skip(at as int));
        } else {
            let cut = split_chars(rest, end - at);
            proof {
                reveal_strlit(" ");
                assert(" "@ =~= seq![' ']);
                assert(done.push(cut.0@).drop_last() =~= done);
                assert(done + words_of(t) =~= done.push(cut.0@) + words_of(cut.1@));
            }
            if !out.as_str().is_empty() {
                out.append(" ");
            }
            out.append(cut.0);
            proof {
                done = done.push(cut.0@);
                assert(out@ =~= joined(done, ' '));
            }
            rest = cut.1;
            at = end;
            assert(rest@ =~= text@.skip(at as int));
        }
    }
    assert(done + words_of(rest@) =~= done);
    out
}

/// How far the word at `from` goes.
fn find_word_end(chars: &Vec<char>, from: usize) -> (end: usize)
    requires
        from <= chars@.len(),
    ensures
        end == from + word_end(chars@.skip(from as int)),
        end <= chars@.len(),
{
    let mut end: usize = from;
    while end < chars.len() && !chars[end].is_whitespace()
        invariant
            from <= end <= chars@.len(),
            end - from + word_end(chars@.skip(end as int)) == word_end(chars@.skip(from as int)),
        decreases chars@.len() - end,
    {
        assert(chars@.skip(end as int).drop_first() =~= chars@.skip(end + 1));
        end = end + 1;
    }
    end
}

/// `text` without the characters of `set`.
pub fn remove_chars(text: &str, set: CharSet) -> (r: String)
    ensures
        r@ == without_chars(text@, set),
{
    let chars = chars_of(text);
    let mut out = String::new();
    let mut rest: &str = text;
    let mut i: usize = 0;
    assert(text@.skip(0) =~= text@);
    while i < chars.len()
        invariant
            i <= chars@.len(),
            chars@ == text@,
            rest@ == text@.skip(i as int),
            out@ == without_chars(text@.take(i as int), set),
        decreases chars@.len() - i,
    {
        let cut = split_chars(rest, 1);
        proof {
            assert(text@.take(i + 1).drop_last() =~= text@.take(i as int));
            assert(cut.0@ =~= seq![text@[i as int]]);
            assert(cut.1@ =~= text@.skip(i + 1));
        }
        if !set.has(chars[i]) {
            out.append(cut.0);
            assert(out@ =~= without_chars(text@.take(i + 1), set));
        }
        rest = cut.1;
        i = i + 1;
    }
    assert(text@.take(i as int) =~= text@);
    out
}

/// `text` without its white space.
pub fn compact_chars(text: &str) -> (r: String)
    ensures
        r@ == compacted(text@),
{
    remove_chars(text, CharSet::Space)
}

} // verus!
