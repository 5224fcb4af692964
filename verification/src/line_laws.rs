//! What cutting a text into lines and words keeps of it.

use crate::chars::{is_white_space, lemma_encode_concat, utf8_len};
use crate::lines::{
    compacted, joined, joined_lines, lemma_line_end, lemma_word_end, line_end, lines_of, normalized,
    offset_lines_from, without_chars, without_return, word_end, words_of,
};
use crate::text::{
    is_blank, lemma_trimmed_end_of, lemma_trimmed_start, trimmed, trimmed_start, CharSet,
};
use vstd::prelude::*;

verus! {

/// Whether `t` is a text of one line: no line feed and no carriage return stand in it.
pub open spec fn one_line(t: Seq<char>) -> bool {
    !t.contains('\n') && !t.contains('\r')
}

/// Whether each of `lines` is a text of one line.
pub open spec fn one_line_each(lines: Seq<Seq<char>>) -> bool {
    forall|i: int| 0 <= i < lines.len() ==> one_line(#[trigger] lines[i])
}

/// Whether `t` holds whole lines: it is empty, or its last line is ended.
pub open spec fn whole_lines(t: Seq<char>) -> bool {
    t.len() == 0 || t.last() == '\n'
}

/// A text without line feeds has its line end at its own end; a line feed behind it ends it there.
pub proof fn lemma_line_end_of(t: Seq<char>, rest: Seq<char>)
    requires
        !t.contains('\n'),
    ensures
        line_end(t) == t.len(),
        line_end(t + seq!['\n'] + rest) == t.len(),
{
    let ended = t + seq!['\n'] + rest;
    lemma_line_end(t);
    lemma_line_end(ended);
    if line_end(t) < t.len() {
        assert(t.contains(t[line_end(t) as int]));
    }
    if line_end(ended) < t.len() {
        assert(t[line_end(ended) as int] == '\n');
        assert(t.contains(t[line_end(ended) as int]));
    } else {
        assert(ended[t.len() as int] == '\n');
    }
}

/// A text that begins with an ended line has that line first, and then the lines of the rest.
pub proof fn lemma_lines_of_first(line: Seq<char>, rest: Seq<char>)
    requires
        !line.contains('\n'),
    ensures
        lines_of(line + seq!['\n'] + rest) == seq![without_return(line)] + lines_of(rest),
{
    let t = line + seq!['\n'] + rest;
    lemma_line_end_of(line, rest);
    assert(t.take(line.len() as int) =~= line);
    assert(t.skip(line.len() as int + 1) =~= rest);
}

/// The same of lines with their offsets.
pub proof fn lemma_offset_lines_first(line: Seq<char>, rest: Seq<char>, base: nat)
    requires
        !line.contains('\n'),
    ensures
        offset_lines_from(line + seq!['\n'] + rest, base) == seq![(base, line)]
            + offset_lines_from(rest, base + utf8_len(line + seq!['\n'])),
{
    let t = line + seq!['\n'] + rest;
    lemma_line_end_of(line, rest);
    assert(t.take(line.len() as int) =~= line);
    assert(t.take(line.len() as int + 1) =~= line + seq!['\n']);
    assert(t.skip(line.len() as int + 1) =~= rest);
}

/// Where a text splits behind a line feed, its lines are those of the two parts, and so are its
/// lines with their offsets.
pub proof fn lemma_lines_of_parts(head: Seq<char>, tail: Seq<char>, base: nat)
    requires
        whole_lines(head),
    ensures
        lines_of(head + tail) == lines_of(head) + lines_of(tail),
        offset_lines_from(head + tail, base) == offset_lines_from(head, base) + offset_lines_from(
            tail,
            base + utf8_len(head),
        ),
    decreases head.len(),
{
    if head.len() == 0 {
        assert(head + tail =~= tail);
        assert(lines_of(head) + lines_of(tail) =~= lines_of(tail));
        lemma_encode_concat(head, tail);
        assert(utf8_len(head) == 0);
        assert(offset_lines_from(head, base) + offset_lines_from(tail, base) =~= offset_lines_from(
            tail,
            base,
        ));
    } else {
        lemma_line_end(head);
        let end = line_end(head) as int;
        assert(head[head.len() - 1] == '\n');
        assert(end < head.len());
        let line = head.take(end);
        let more = head.skip(end + 1);
        assert(!line.contains('\n'));
        assert(head =~= line + seq!['\n'] + more);
        assert(head + tail =~= line + seq!['\n'] + (more + tail));
        lemma_lines_of_first(line, more);
        lemma_lines_of_first(line, more + tail);
        let next = base + utf8_len(line + seq!['\n']);
        lemma_offset_lines_first(line, more, base);
        lemma_offset_lines_first(line, more + tail, base);
        if more.len() > 0 {
            assert(more.last() == head.last());
        }
        lemma_lines_of_parts(more, tail, next);
        lemma_encode_concat(line + seq!['\n'], more);
        assert(lines_of(head + tail) =~= lines_of(head) + lines_of(tail));
        assert(offset_lines_from(head + tail, base) =~= offset_lines_from(head, base)
            + offset_lines_from(tail, base + utf8_len(head)));
    }
}

/// No line of a text holds a line feed.
pub proof fn law_lines_hold_no_line_feed(t: Seq<char>)
    ensures
        forall|i: int| 0 <= i < lines_of(t).len() ==> !(#[trigger] lines_of(t)[i]).contains('\n'),
    decreases t.len(),
{
    lemma_line_end(t);
    let end = line_end(t) as int;
    if t.len() > 0 {
        if end < t.len() {
            law_lines_hold_no_line_feed(t.skip(end + 1));
            let first = without_return(t.take(end));
            assert(!first.contains('\n')) by {
                if first.contains('\n') {
                    let i = choose|i: int| 0 <= i < first.len() && first[i] == '\n';
                    assert(t[i] == '\n');
                }
            }
            assert forall|i: int| 0 <= i < lines_of(t).len() implies !(
            #[trigger] lines_of(t)[i]).contains('\n') by {
                if i > 0 {
                    assert(lines_of(t)[i] == lines_of(t.skip(end + 1))[i - 1]);
                }
            }
        } else {
            assert(!t.contains('\n'));
        }
    }
}

/// A text without carriage returns has none in its lines.
pub proof fn lemma_lines_hold_no_return(t: Seq<char>)
    requires
        !t.contains('\r'),
    ensures
        forall|i: int| 0 <= i < lines_of(t).len() ==> one_line(#[trigger] lines_of(t)[i]),
    decreases t.len(),
{
    law_lines_hold_no_line_feed(t);
    lemma_line_end(t);
    let end = line_end(t) as int;
    if t.len() > 0 && end < t.len() {
        let more = t.skip(end + 1);
        assert(!more.contains('\r')) by {
            if more.contains('\r') {
                let i = choose|i: int| 0 <= i < more.len() && more[i] == '\r';
                assert(t[i + end + 1] == '\r');
            }
        }
        lemma_lines_hold_no_return(more);
        let first = without_return(t.take(end));
        assert(!first.contains('\r')) by {
            if first.contains('\r') {
                let i = choose|i: int| 0 <= i < first.len() && first[i] == '\r';
                assert(t[i] == '\r');
            }
        }
        assert forall|i: int| 0 <= i < lines_of(t).len() implies one_line(
            #[trigger] lines_of(t)[i],
        ) by {
            if i > 0 {
                assert(lines_of(t)[i] == lines_of(more)[i - 1]);
            }
        }
    }
}

/// Parts joined are the first part, the separator and the other parts joined.
pub proof fn lemma_joined_first(first: Seq<char>, rest: Seq<Seq<char>>, separator: char)
    requires
        rest.len() > 0,
    ensures
        joined(seq![first] + rest, separator) == first + seq![separator] + joined(rest, separator),
    decreases rest.len(),
{
    let all = seq![first] + rest;
    assert(all.last() == rest.last());
    if rest.len() == 1 {
        assert(all.drop_last() =~= seq![first]);
        assert(joined(seq![first], separator) == first);
        assert(joined(all, separator) =~= first + seq![separator] + rest[0]);
    } else {
        assert(all.drop_last() =~= seq![first] + rest.drop_last());
        lemma_joined_first(first, rest.drop_last(), separator);
        assert(joined(all, separator) =~= first + seq![separator] + joined(rest, separator));
    }
}

/// Lines that were joined are the lines of the text, but for a last line that is empty.
pub proof fn law_joined_lines_are_lines(parts: Seq<Seq<char>>)
    requires
        forall|i: int| 0 <= i < parts.len() ==> one_line(#[trigger] parts[i]),
    ensures
        lines_of(joined_lines(parts)) == if parts.len() > 0 && parts.last().len() == 0 {
            parts.drop_last()
        } else {
            parts
        },
    decreases parts.len(),
{
    if parts.len() == 0 {
        assert(lines_of(joined_lines(parts)) =~= parts);
    } else if parts.len() == 1 {
        lemma_line_end_of(parts[0], seq![]);
        assert(one_line(parts[0]));
        if parts[0].len() == 0 {
            assert(lines_of(joined_lines(parts)) =~= parts.drop_last());
        } else {
            assert(lines_of(joined_lines(parts)) =~= parts);
        }
    } else {
        let rest = parts.drop_first();
        assert(parts =~= seq![parts[0]] + rest);
        lemma_joined_first(parts[0], rest, '\n');
        assert(one_line(parts[0]));
        lemma_lines_of_first(parts[0], joined_lines(rest));
        assert forall|i: int| 0 <= i < rest.len() implies one_line(#[trigger] rest[i]) by {
            assert(rest[i] == parts[i + 1]);
        }
        law_joined_lines_are_lines(rest);
        if parts[0].len() > 0 {
            assert(parts[0].contains(parts[0].last()));
        }
        assert(without_return(parts[0]) == parts[0]);
        assert(rest.last() == parts.last());
        if parts.last().len() == 0 {
            assert(parts.drop_last() =~= seq![parts[0]] + rest.drop_last());
        }
    }
}

/// Joined lines hold no carriage return if none of them does.
pub proof fn lemma_joined_holds_no_return(parts: Seq<Seq<char>>)
    requires
        one_line_each(parts),
    ensures
        !joined_lines(parts).contains('\r'),
    decreases parts.len(),
{
    if parts.len() > 1 {
        let shorter = parts.drop_last();
        assert forall|i: int| 0 <= i < shorter.len() implies one_line(#[trigger] shorter[i]) by {
            assert(shorter[i] == parts[i]);
        }
        lemma_joined_holds_no_return(shorter);
        let t = joined_lines(parts);
        let before = joined_lines(shorter);
        assert(one_line(parts[parts.len() - 1]));
        assert(!t.contains('\r')) by {
            if t.contains('\r') {
                let i = choose|i: int| 0 <= i < t.len() && t[i] == '\r';
                if i < before.len() {
                    assert(before[i] == '\r');
                } else {
                    assert(i > before.len());
                    assert(parts.last()[i - before.len() - 1] == '\r');
                }
            }
        }
    } else if parts.len() == 1 {
        assert(one_line(parts[0]));
    }
}

/// Lines that were joined and ended are the first lines of a text, and the others those of the rest.
pub proof fn lemma_lines_of_joined(first: Seq<Seq<char>>, tail: Seq<char>)
    requires
        first.len() > 0,
        one_line_each(first),
    ensures
        lines_of(joined_lines(first) + seq!['\n'] + tail) == first + lines_of(tail),
    decreases first.len(),
{
    assert(one_line(first[0]));
    if first[0].len() > 0 {
        assert(first[0].contains(first[0].last()));
    }
    if first.len() == 1 {
        lemma_lines_of_first(first[0], tail);
        assert(first =~= seq![first[0]]);
    } else {
        let rest = first.drop_first();
        assert(first =~= seq![first[0]] + rest);
        assert forall|i: int| 0 <= i < rest.len() implies one_line(#[trigger] rest[i]) by {
            assert(rest[i] == first[i + 1]);
        }
        lemma_joined_first(first[0], rest, '\n');
        lemma_lines_of_joined(rest, tail);
        let more = joined_lines(rest) + seq!['\n'] + tail;
        assert(joined_lines(first) + seq!['\n'] + tail =~= first[0] + seq!['\n'] + more);
        lemma_lines_of_first(first[0], more);
        assert(seq![first[0]] + (rest + lines_of(tail)) =~= first + lines_of(tail));
    }
}

/// Dropping characters from a text drops them from its parts.
pub proof fn lemma_without_chars_parts(left: Seq<char>, right: Seq<char>, set: CharSet)
    ensures
        without_chars(left + right, set) == without_chars(left, set) + without_chars(right, set),
    decreases right.len(),
{
    if right.len() == 0 {
        assert(left + right =~= left);
        assert(without_chars(left, set) + without_chars(right, set) =~= without_chars(left, set));
    } else {
        assert((left + right).drop_last() =~= left + right.drop_last());
        assert((left + right).last() == right.last());
        lemma_without_chars_parts(left, right.drop_last(), set);
        assert(without_chars(left + right, set) =~= without_chars(left, set) + without_chars(
            right,
            set,
        ));
    }
}

/// A text of nothing but white space has no other characters, and one without white space keeps
/// them all.
pub proof fn lemma_compacted_alike(t: Seq<char>)
    ensures
        (forall|i: int| 0 <= i < t.len() ==> is_white_space(#[trigger] t[i])) ==> compacted(t)
            == Seq::<char>::empty(),
        (forall|i: int| 0 <= i < t.len() ==> !is_white_space(#[trigger] t[i])) ==> compacted(t)
            == t,
    decreases t.len(),
{
    if t.len() > 0 {
        let shorter = t.drop_last();
        lemma_compacted_alike(shorter);
        assert(forall|i: int| 0 <= i < shorter.len() ==> #[trigger] shorter[i] == t[i]);
        assert(t.last() == t[t.len() - 1]);
        assert(shorter.push(t.last()) =~= t);
    }
}

/// The characters of `parts`, without white space.
pub open spec fn compacted_parts(parts: Seq<Seq<char>>) -> Seq<char>
    decreases parts.len(),
{
    if parts.len() == 0 {
        seq![]
    } else {
        compacted(parts[0]) + compacted_parts(parts.drop_first())
    }
}

/// The same from the other end.
pub proof fn lemma_compacted_parts_last(parts: Seq<Seq<char>>)
    requires
        parts.len() > 0,
    ensures
        compacted_parts(parts) == compacted_parts(parts.drop_last()) + compacted(parts.last()),
    decreases parts.len(),
{
    if parts.len() == 1 {
        assert(compacted_parts(parts.drop_first()) =~= seq![]);
        assert(compacted_parts(parts.drop_last()) =~= seq![]);
        assert(compacted_parts(parts) =~= compacted_parts(parts.drop_last()) + compacted(
            parts.last(),
        ));
    } else {
        let rest = parts.drop_first();
        lemma_compacted_parts_last(rest);
        assert(parts.drop_last().drop_first() =~= rest.drop_last());
        assert(compacted_parts(parts) =~= compacted_parts(parts.drop_last()) + compacted(
            parts.last(),
        ));
    }
}

/// White space between parts does not matter once white space is dropped.
pub proof fn lemma_compacted_joined(parts: Seq<Seq<char>>, separator: char)
    requires
        is_white_space(separator),
    ensures
        compacted(joined(parts, separator)) == compacted_parts(parts),
    decreases parts.len(),
{
    if parts.len() == 0 {
        assert(compacted(seq![]) =~= seq![]);
    } else {
        let rest = parts.drop_first();
        assert(parts =~= seq![parts[0]] + rest);
        lemma_compacted_joined(rest, separator);
        if rest.len() > 0 {
            lemma_joined_first(parts[0], rest, separator);
            let blank: Seq<char> = seq![separator];
            lemma_compacted_alike(blank);
            lemma_without_chars_parts(parts[0] + blank, joined(rest, separator), CharSet::Space);
            lemma_without_chars_parts(parts[0], blank, CharSet::Space);
            assert(compacted(parts[0]) + compacted(blank) =~= compacted(parts[0]));
        } else {
            assert(compacted(parts[0]) + compacted_parts(rest) =~= compacted(parts[0]));
        }
    }
}

proof fn lemma_compacted_words(t: Seq<char>)
    ensures
        compacted_parts(words_of(t)) == compacted(t),
    decreases t.len(),
{
    lemma_word_end(t);
    let end = word_end(t) as int;
    if t.len() == 0 {
    } else if end == 0 {
        lemma_compacted_words(t.drop_first());
        let first = seq![t[0]];
        lemma_compacted_alike(first);
        assert(t =~= first + t.drop_first());
        lemma_without_chars_parts(first, t.drop_first(), CharSet::Space);
        assert(compacted(first) + compacted(t.drop_first()) =~= compacted(t.drop_first()));
    } else {
        lemma_compacted_words(t.skip(end));
        assert(t =~= t.take(end) + t.skip(end));
        lemma_without_chars_parts(t.take(end), t.skip(end), CharSet::Space);
        let words = seq![t.take(end)] + words_of(t.skip(end));
        assert(words.drop_first() =~= words_of(t.skip(end)));
        assert(words[0] == t.take(end));
    }
}

/// Cutting a text into lines keeps every character but white space.
pub proof fn law_lines_keep_the_characters(t: Seq<char>)
    ensures
        compacted_parts(lines_of(t)) == compacted(t),
        compacted(joined_lines(lines_of(t))) == compacted(t),
    decreases t.len(),
{
    lemma_line_end(t);
    let end = line_end(t) as int;
    lemma_compacted_joined(lines_of(t), '\n');
    if t.len() == 0 {
    } else if end < t.len() {
        let line = t.take(end);
        let feed: Seq<char> = seq!['\n'];
        let rest = t.skip(end + 1);
        law_lines_keep_the_characters(rest);
        assert(t =~= line + feed + rest);
        lemma_without_chars_parts(line + feed, rest, CharSet::Space);
        lemma_without_chars_parts(line, feed, CharSet::Space);
        lemma_compacted_alike(feed);
        assert(compacted(line) + compacted(feed) =~= compacted(line));
        assert(compacted(without_return(line)) == compacted(line));
        let all = seq![without_return(line)] + lines_of(rest);
        assert(all.drop_first() =~= lines_of(rest));
        assert(all[0] == without_return(line));
    } else {
        assert(lines_of(t).drop_first() =~= seq![]);
        assert(compacted_parts(lines_of(t).drop_first()) =~= Seq::<char>::empty());
        assert(compacted(t) + Seq::<char>::empty() =~= compacted(t));
    }
}

/// Two texts that differ in white space alone are the same once it is dropped, so that an echo
/// is known however the screen wrapped it.
pub proof fn law_spacing_is_ignored(t: Seq<char>)
    ensures
        compacted(normalized(t)) == compacted(t),
        compacted(trimmed(t)) == compacted(t),
        compacted(compacted(t)) == compacted(t),
        compacted(t).len() == 0 <==> is_blank(t),
{
    lemma_compacted_joined(words_of(t), ' ');
    lemma_compacted_words(t);
    lemma_compacted_is_bare(t);
    lemma_compacted_alike(compacted(t));
    let begun = trimmed_start(t);
    let kept = trimmed(t);
    lemma_trimmed_start(t);
    lemma_trimmed_end_of(begun, CharSet::Space);
    let before = t.take(t.len() - begun.len());
    let after = begun.skip(kept.len() as int);
    lemma_compacted_alike(before);
    lemma_compacted_alike(after);
    assert(t =~= before + begun);
    assert(begun =~= kept + after);
    assert(forall|i: int| 0 <= i < after.len() ==> #[trigger] after[i] == begun[i + kept.len()]);
    lemma_without_chars_parts(before, begun, CharSet::Space);
    lemma_without_chars_parts(kept, after, CharSet::Space);
    assert(compacted(before) + compacted(begun) =~= compacted(begun));
    assert(compacted(kept) + compacted(after) =~= compacted(kept));
    if kept.len() > 0 {
        let shorter = kept.drop_last();
        assert(compacted(kept) == compacted(shorter).push(kept.last()));
    } else {
        assert(kept =~= seq![]);
    }
}

proof fn lemma_compacted_is_bare(t: Seq<char>)
    ensures
        forall|i: int| 0 <= i < compacted(t).len() ==> !is_white_space(#[trigger] compacted(t)[i]),
    decreases t.len(),
{
    if t.len() > 0 {
        let before = compacted(t.drop_last());
        lemma_compacted_is_bare(t.drop_last());
        assert forall|i: int| 0 <= i < compacted(t).len() implies !is_white_space(
            #[trigger] compacted(t)[i],
        ) by {
            if i < before.len() {
                assert(compacted(t)[i] == before[i]);
            }
        }
    }
}

/// Whether every one of `words` is a word: not empty, and without white space.
pub open spec fn are_words(words: Seq<Seq<char>>) -> bool {
    forall|i: int| #![trigger words[i]]
        0 <= i < words.len() ==> words[i].len() > 0 && forall|k: int|
            0 <= k < words[i].len() ==> !is_white_space(#[trigger] words[i][k])
}

pub proof fn lemma_words_are_words(t: Seq<char>)
    ensures
        are_words(words_of(t)),
    decreases t.len(),
{
    lemma_word_end(t);
    let end = word_end(t) as int;
    if t.len() == 0 {
    } else if end == 0 {
        lemma_words_are_words(t.drop_first());
    } else {
        lemma_words_are_words(t.skip(end));
        let words = words_of(t);
        assert forall|i: int| 0 <= i < words.len() implies (#[trigger] words[i]).len() > 0
            && forall|k: int| 0 <= k < words[i].len() ==> !is_white_space(#[trigger] words[i][k]) by {
            if i > 0 {
                assert(words[i] == words_of(t.skip(end))[i - 1]);
            }
        }
    }
}

proof fn lemma_words_of_joined(words: Seq<Seq<char>>)
    requires
        are_words(words),
    ensures
        words_of(joined(words, ' ')) == words,
    decreases words.len(),
{
    if words.len() == 0 {
        assert(words_of(joined(words, ' ')) =~= words);
    } else {
        let word = words[0];
        let rest = words.drop_first();
        let t = joined(words, ' ');
        assert(words =~= seq![word] + rest);
        assert forall|i: int| 0 <= i < rest.len() implies (#[trigger] rest[i]).len() > 0
            && forall|k: int| 0 <= k < rest[i].len() ==> !is_white_space(#[trigger] rest[i][k]) by {
            assert(rest[i] == words[i + 1]);
        }
        lemma_words_of_joined(rest);
        lemma_word_end(t);
        if rest.len() > 0 {
            lemma_joined_first(word, rest, ' ');
            let more = joined(rest, ' ');
            assert(t[word.len() as int] == ' ');
            assert(forall|k: int| 0 <= k < word.len() ==> #[trigger] t[k] == word[k]);
            assert(word_end(t) == word.len());
            assert(t.take(word.len() as int) =~= word);
            let spaced = t.skip(word.len() as int);
            assert(spaced[0] == ' ');
            assert(spaced.drop_first() =~= more);
            assert(word_end(spaced) == 0);
            assert(words_of(spaced) == words_of(more));
        } else {
            assert(t == word);
            assert(word_end(t) == word.len());
            assert(t.take(word.len() as int) =~= word);
            assert(t.skip(word.len() as int) =~= seq![]);
            assert(words_of(t) =~= words);
        }
    }
}

/// A text with single blanks between its words is left as it is.
pub proof fn law_normalizing_is_final(t: Seq<char>)
    ensures
        normalized(normalized(t)) == normalized(t),
{
    lemma_words_are_words(t);
    lemma_words_of_joined(words_of(t));
}

/// The words of a text stay its words, with one blank between two of them and no white space elsewhere.
pub proof fn law_words_stand_apart(t: Seq<char>)
    ensures
        words_of(normalized(t)) == words_of(t),
        forall|i: int| #![trigger normalized(t)[i]]
            0 <= i < normalized(t).len() && is_white_space(normalized(t)[i]) ==> {
                &&& normalized(t)[i] == ' '
                &&& 0 < i < normalized(t).len() - 1
                &&& !is_white_space(normalized(t)[i - 1])
                &&& !is_white_space(normalized(t)[i + 1])
            },
{
    lemma_words_are_words(t);
    lemma_words_of_joined(words_of(t));
    lemma_words_apart(words_of(t));
}

proof fn lemma_words_apart(words: Seq<Seq<char>>)
    requires
        are_words(words),
    ensures
        words.len() > 0 ==> joined(words, ' ').len() > 0 && !is_white_space(
            joined(words, ' ').last(),
        ) && !is_white_space(joined(words, ' ')[0]),
        forall|i: int| #![trigger joined(words, ' ')[i]]
            0 <= i < joined(words, ' ').len() && is_white_space(joined(words, ' ')[i]) ==> {
                &&& joined(words, ' ')[i] == ' '
                &&& 0 < i < joined(words, ' ').len() - 1
                &&& !is_white_space(joined(words, ' ')[i - 1])
                &&& !is_white_space(joined(words, ' ')[i + 1])
            },
    decreases words.len(),
{
    let t = joined(words, ' ');
    if words.len() > 0 {
        let last = words[words.len() - 1];
        assert(last.len() > 0);
        if words.len() == 1 {
            assert(t == last);
            assert(!is_white_space(words[0][0]));
            assert(!is_white_space(words[0][last.len() - 1]));
            assert forall|i: int| #![trigger t[i]] 0 <= i < t.len() implies !is_white_space(t[i]) by {
                assert(words[0][i] == t[i]);
            }
        } else {
            let shorter = words.drop_last();
            let before = joined(shorter, ' ');
            let n = before.len() as int;
            assert(are_words(shorter)) by {
                assert forall|i: int| #![trigger shorter[i]] 0 <= i < shorter.len() implies
                    shorter[i].len() > 0 && forall|k: int|
                    0 <= k < shorter[i].len() ==> !is_white_space(#[trigger] shorter[i][k]) by {
                    assert(shorter[i] == words[i]);
                }
            }
            lemma_words_apart(shorter);
            assert(t =~= before.push(' ') + last);
            assert(forall|k: int| 0 <= k < last.len() ==> !is_white_space(
                #[trigger] words[words.len() - 1][k],
            ));
            assert forall|i: int| #![trigger t[i]] n < i < t.len() implies !is_white_space(t[i]) by {
                assert(t[i] == words[words.len() - 1][i - n - 1]);
            }
            assert(t[0] == before[0]);
            assert forall|i: int| #![trigger t[i]] 0 <= i < t.len() && is_white_space(
                t[i],
            ) implies {
                &&& t[i] == ' '
                &&& 0 < i < t.len() - 1
                &&& !is_white_space(t[i - 1])
                &&& !is_white_space(t[i + 1])
            } by {
                if i < n {
                    assert(before[i] == t[i]);
                    assert(is_white_space(before[i]));
                    assert(before[i - 1] == t[i - 1]);
                    assert(before[i + 1] == t[i + 1]);
                } else {
                    assert(i == n);
                    assert(t[n - 1] == before.last());
                    assert(!is_white_space(t[n + 1]));
                }
            }
        }
    }
}

} // verus!
