//! Prefixes, suffixes, searches and trimming.

use crate::chars::{chars_of, is_white_space, split_chars};
use vstd::prelude::*;

verus! {

/// The characters of an optional text.
pub open spec fn option_view(text: Option<&str>) -> Option<Seq<char>> {
    match text {
        Some(t) => Some(t@),
        None => None,
    }
}

/// The characters of an optional text.
pub open spec fn optional_view(text: Option<String>) -> Option<Seq<char>> {
    match text {
        Some(t) => Some(t@),
        None => None,
    }
}

/// The characters of a text or of an error message.
pub open spec fn result_view(r: Result<String, String>) -> Result<Seq<char>, Seq<char>> {
    match r {
        Ok(text) => Ok(text@),
        Err(message) => Err(message@),
    }
}

/// Whether `t` begins with `prefix`.
pub open spec fn has_prefix(t: Seq<char>, prefix: Seq<char>) -> bool {
    prefix.len() <= t.len() && t.take(prefix.len() as int) == prefix
}

/// Whether `t` ends with `suffix`.
pub open spec fn has_suffix(t: Seq<char>, suffix: Seq<char>) -> bool {
    suffix.len() <= t.len() && t.skip(t.len() - suffix.len()) == suffix
}

/// Whether the first character of `t` is `c`.
pub open spec fn begins_with(t: Seq<char>, c: char) -> bool {
    t.len() > 0 && t[0] == c
}

/// Whether `part` stands in `t` at position `i`.
pub open spec fn occurs_at(t: Seq<char>, part: Seq<char>, i: int) -> bool {
    0 <= i && i + part.len() <= t.len() && t.subrange(i, i + part.len()) == part
}

/// Whether `part` stands somewhere in `t`.
pub open spec fn has_text(t: Seq<char>, part: Seq<char>) -> bool {
    exists|i: int| occurs_at(t, part, i)
}

/// The first position of `part` in `t` at or after `from`.
pub open spec fn position_from(t: Seq<char>, part: Seq<char>, from: int) -> Option<int>
    decreases t.len() - from + 1,
{
    if from < 0 || from + part.len() > t.len() {
        None
    } else if occurs_at(t, part, from) {
        Some(from)
    } else {
        position_from(t, part, from + 1)
    }
}

/// The first position of `part` in `t`.
pub open spec fn position_of(t: Seq<char>, part: Seq<char>) -> Option<int> {
    position_from(t, part, 0)
}

/// The characters that a trimming removes.
#[derive(Clone, Copy)]
pub enum CharSet {
    /// White space.
    Space,
    /// White space and one more character.
    SpaceOr(char),
    /// One character.
    Only(char),
}

impl CharSet {
    /// Whether `c` is one of the characters.
    pub open spec fn contains(self, c: char) -> bool {
        match self {
            CharSet::Space => is_white_space(c),
            CharSet::SpaceOr(extra) => is_white_space(c) || c == extra,
            CharSet::Only(only) => c == only,
        }
    }

    /// Whether `c` is one of the characters.
    pub fn has(&self, c: char) -> (r: bool)
        ensures
            r == self.contains(c),
    {
        match self {
            CharSet::Space => c.is_whitespace(),
            CharSet::SpaceOr(extra) => c.is_whitespace() || c == *extra,
            CharSet::Only(only) => c == *only,
        }
    }
}

/// `t` without the white space that it begins with.
pub open spec fn trimmed_start(t: Seq<char>) -> Seq<char>
    decreases t.len(),
{
    if t.len() > 0 && is_white_space(t[0]) {
        trimmed_start(t.drop_first())
    } else {
        t
    }
}

/// `t` without the characters of `set` that it ends with.
pub open spec fn trimmed_end_of(t: Seq<char>, set: CharSet) -> Seq<char>
    decreases t.len(),
{
    if t.len() > 0 && set.contains(t.last()) {
        trimmed_end_of(t.drop_last(), set)
    } else {
        t
    }
}

/// `t` without the white space that it ends with.
pub open spec fn trimmed_end(t: Seq<char>) -> Seq<char> {
    trimmed_end_of(t, CharSet::Space)
}

/// `t` without the white space at both its ends.
pub open spec fn trimmed(t: Seq<char>) -> Seq<char> {
    trimmed_end(trimmed_start(t))
}

/// Whether `t` holds nothing but white space.
pub open spec fn is_blank(t: Seq<char>) -> bool {
    trimmed(t).len() == 0
}

/// `t` without the repetitions of `suffix` that it ends with.
pub open spec fn without_suffixes(t: Seq<char>, suffix: Seq<char>) -> Seq<char>
    decreases t.len(),
{
    if suffix.len() > 0 && has_suffix(t, suffix) {
        without_suffixes(t.take(t.len() - suffix.len()), suffix)
    } else {
        t
    }
}

/// How many times `t` has `c` at its start.
pub open spec fn leading_count(t: Seq<char>, c: char) -> nat
    decreases t.len(),
{
    if begins_with(t, c) {
        1 + leading_count(t.drop_first(), c)
    } else {
        0
    }
}

/// How many characters of `t` are `c`.
pub open spec fn count_of(t: Seq<char>, c: char) -> nat
    decreases t.len(),
{
    if t.len() == 0 {
        0
    } else {
        count_of(t.drop_last(), c) + if t.last() == c {
            1nat
        } else {
            0nat
        }
    }
}

/// Whether every character of `t` is `c`.
pub open spec fn only_holds(t: Seq<char>, c: char) -> bool {
    forall|i: int| 0 <= i < t.len() ==> t[i] == c
}

/// Whether two texts hold the same characters.
pub fn same_text(left: &str, right: &str) -> (r: bool)
    ensures
        r == (left@ == right@),
{
    let a = chars_of(left);
    let b = chars_of(right);
    assert(a@.len() == b@.len() ==> a@.subrange(0, b@.len() as int) =~= a@);
    a.len() == b.len() && matches_at(&a, &b, 0)
}

/// Whether `part` stands in `chars` at `at`.
fn matches_at(chars: &Vec<char>, part: &Vec<char>, at: usize) -> (r: bool)
    requires
        at + part@.len() <= chars@.len(),
    ensures
        r == occurs_at(chars@, part@, at as int),
{
    let end: usize = chars.len();
    let mut i: usize = 0;
    while i < part.len()
        invariant
            i <= part@.len(),
            at + part@.len() <= chars@.len() == end,
            forall|j: int| 0 <= j < i ==> chars@[at + j] == part@[j],
        decreases part@.len() - i,
    {
        if chars[at + i] != part[i] {
            assert(chars@.subrange(at as int, at + part@.len())[i as int] != part@[i as int]);
            return false;
        }
        i = i + 1;
    }
    assert(chars@.subrange(at as int, at + part@.len()) =~= part@);
    true
}

/// Whether `text` begins with `prefix`.
pub fn starts_with(text: &str, prefix: &str) -> (r: bool)
    ensures
        r == has_prefix(text@, prefix@),
{
    let mut left = text.chars();
    let mut right = prefix.chars();
    let ghost mut i: int = 0;
    assert(text@.skip(0) =~= text@);
    assert(prefix@.skip(0) =~= prefix@);
    assert(text@.take(0) =~= prefix@.take(0));
    loop
        invariant
            0 <= i <= text@.len(),
            i <= prefix@.len(),
            vstd::std_specs::iter::IteratorSpec::remaining(&left) == text@.skip(i),
            vstd::std_specs::iter::IteratorSpec::remaining(&right) == prefix@.skip(i),
            text@.take(i) == prefix@.take(i),
        decreases prefix@.len() - i,
    {
        match right.next() {
            None => {
                assert(prefix@.take(i) =~= prefix@);
                return true;
            },
            Some(b) => match left.next() {
                None => {
                    return false;
                },
                Some(a) => {
                    if a != b {
                        assert(prefix@.len() <= text@.len() ==> text@.take(
                            prefix@.len() as int,
                        )[i] != prefix@[i]);
                        return false;
                    }
                    proof {
                        i = i + 1;
                        assert(text@.take(i) =~= text@.take(i - 1).push(a));
                        assert(prefix@.take(i) =~= prefix@.take(i - 1).push(b));
                    }
                },
            },
        }
    }
}

/// Whether the first character of `text` is `c`.
pub fn starts_with_char(text: &str, c: char) -> (r: bool)
    ensures
        r == begins_with(text@, c),
{
    let mut chars = text.chars();
    match chars.next() {
        Some(first) => first == c,
        None => false,
    }
}

/// What follows `prefix`, if `text` begins with it.
pub fn strip_prefix<'a>(text: &'a str, prefix: &str) -> (rest: Option<&'a str>)
    ensures
        rest is Some <==> has_prefix(text@, prefix@),
        rest matches Some(r) ==> r@ == text@.skip(prefix@.len() as int),
{
    if starts_with(text, prefix) {
        let parts = split_chars(text, prefix.unicode_len());
        Some(parts.1)
    } else {
        None
    }
}

/// Whether `text` ends with `suffix`.
pub fn ends_with(text: &str, suffix: &str) -> (r: bool)
    ensures
        r == has_suffix(text@, suffix@),
{
    let chars = chars_of(text);
    let part = chars_of(suffix);
    if part.len() > chars.len() {
        return false;
    }
    let at: usize = chars.len() - part.len();
    assert(chars@.skip(at as int) =~= chars@.subrange(at as int, at + part@.len()));
    matches_at(&chars, &part, at)
}

/// The position of the first `part` in `text`, in characters.
pub fn find_text(text: &str, part: &str) -> (r: Option<usize>)
    ensures
        match r {
            Some(i) => position_of(text@, part@) == Some(i as int),
            None => position_of(text@, part@) is None,
        },
{
    let chars = chars_of(text);
    let wanted = chars_of(part);
    if wanted.len() > chars.len() {
        return None;
    }
    let last: usize = chars.len() - wanted.len();
    let mut i: usize = 0;
    loop
        invariant
            chars@ == text@,
            wanted@ == part@,
            last == chars@.len() - wanted@.len(),
            i <= last,
            position_of(text@, part@) == position_from(text@, part@, i as int),
        decreases last - i,
    {
        if matches_at(&chars, &wanted, i) {
            return Some(i);
        }
        if i == last {
            assert(position_from(text@, part@, i + 1) is None);
            return None;
        }
        i = i + 1;
    }
}

/// A search finds something exactly where there is something to find.
pub proof fn lemma_position_of(t: Seq<char>, part: Seq<char>)
    ensures
        position_of(t, part) is Some <==> has_text(t, part),
        position_of(t, part) matches Some(i) ==> occurs_at(t, part, i) && forall|j: int|
            0 <= j < i ==> !occurs_at(t, part, j),
{
    lemma_position_from(t, part, 0);
    if has_text(t, part) {
        let i = choose|i: int| occurs_at(t, part, i);
        assert(occurs_at(t, part, i));
    }
}

proof fn lemma_position_from(t: Seq<char>, part: Seq<char>, from: int)
    requires
        0 <= from,
    ensures
        position_from(t, part, from) matches Some(i) ==> from <= i && occurs_at(t, part, i)
            && forall|j: int| from <= j < i ==> !occurs_at(t, part, j),
        position_from(t, part, from) is None ==> forall|j: int| from <= j ==> !occurs_at(t, part, j),
    decreases t.len() - from + 1,
{
    if from + part.len() <= t.len() && !occurs_at(t, part, from) {
        lemma_position_from(t, part, from + 1);
    }
}

/// Whether `part` stands somewhere in `text`.
pub fn contains_text(text: &str, part: &str) -> (r: bool)
    ensures
        r == has_text(text@, part@),
{
    proof {
        lemma_position_of(text@, part@);
    }
    find_text(text, part).is_some()
}

/// Whether `c` is a character of `text`.
pub fn contains_char(text: &str, c: char) -> (r: bool)
    ensures
        r == text@.contains(c),
{
    let chars = chars_of(text);
    let mut i: usize = 0;
    while i < chars.len()
        invariant
            i <= chars@.len(),
            chars@ == text@,
            forall|j: int| 0 <= j < i ==> text@[j] != c,
        decreases chars@.len() - i,
    {
        if chars[i] == c {
            assert(text@[i as int] == c);
            return true;
        }
        i = i + 1;
    }
    false
}

/// `text` without the white space that it begins with.
pub fn trim_start<'a>(text: &'a str) -> (r: &'a str)
    ensures
        r@ == trimmed_start(text@),
{
    let chars = chars_of(text);
    let mut i: usize = 0;
    assert(text@.skip(0) =~= text@);
    while i < chars.len() && chars[i].is_whitespace()
        invariant
            i <= chars@.len(),
            chars@ == text@,
            trimmed_start(text@) == trimmed_start(text@.skip(i as int)),
        decreases chars@.len() - i,
    {
        assert(text@.skip(i as int).drop_first() =~= text@.skip(i + 1));
        i = i + 1;
    }
    let parts = split_chars(text, i);
    parts.1
}

/// `text` without the characters of `set` that it ends with.
pub fn trim_end_of<'a>(text: &'a str, set: CharSet) -> (r: &'a str)
    ensures
        r@ == trimmed_end_of(text@, set),
{
    let chars = chars_of(text);
    let mut n: usize = chars.len();
    assert(text@.take(n as int) =~= text@);
    while n > 0 && set.has(chars[n - 1])
        invariant
            n <= chars@.len(),
            chars@ == text@,
            trimmed_end_of(text@, set) == trimmed_end_of(text@.take(n as int), set),
        decreases n,
    {
        assert(text@.take(n as int).drop_last() =~= text@.take(n - 1));
        n = n - 1;
    }
    let parts = split_chars(text, n);
    parts.0
}

/// `text` without the white space that it ends with.
pub fn trim_end<'a>(text: &'a str) -> (r: &'a str)
    ensures
        r@ == trimmed_end(text@),
{
    trim_end_of(text, CharSet::Space)
}

/// `text` without the white space at both its ends.
pub fn trim<'a>(text: &'a str) -> (r: &'a str)
    ensures
        r@ == trimmed(text@),
{
    trim_end(trim_start(text))
}

/// Whether `text` holds nothing but white space.
pub fn blank(text: &str) -> (r: bool)
    ensures
        r == is_blank(text@),
{
    trim(text).is_empty()
}

/// `text` without the repetitions of `suffix` that it ends with.
pub fn trim_end_text<'a>(text: &'a str, suffix: &str) -> (r: &'a str)
    ensures
        r@ == without_suffixes(text@, suffix@),
{
    let mut rest: &'a str = text;
    while !suffix.is_empty() && ends_with(rest, suffix)
        invariant
            without_suffixes(rest@, suffix@) == without_suffixes(text@, suffix@),
        decreases rest@.len(),
    {
        let keep: usize = rest.unicode_len() - suffix.unicode_len();
        rest = split_chars(rest, keep).0;
    }
    rest
}

/// How many times `text` has `c` at its start.
pub fn count_leading(text: &str, c: char) -> (n: usize)
    ensures
        n == leading_count(text@, c),
{
    let chars = chars_of(text);
    let mut n: usize = 0;
    assert(text@.skip(0) =~= text@);
    while n < chars.len() && chars[n] == c
        invariant
            n <= chars@.len(),
            chars@ == text@,
            leading_count(text@, c) == n + leading_count(text@.skip(n as int), c),
        decreases chars@.len() - n,
    {
        assert(text@.skip(n as int).drop_first() =~= text@.skip(n + 1));
        n = n + 1;
    }
    n
}

/// How many characters of `text` are `c`.
pub fn count_char(text: &str, c: char) -> (n: usize)
    ensures
        n == count_of(text@, c),
{
    let chars = chars_of(text);
    let mut n: usize = 0;
    let mut i: usize = 0;
    while i < chars.len()
        invariant
            i <= chars@.len(),
            n <= i,
            chars@ == text@,
            n == count_of(text@.take(i as int), c),
        decreases chars@.len() - i,
    {
        assert(text@.take(i + 1).drop_last() =~= text@.take(i as int));
        if chars[i] == c {
            n = n + 1;
        }
        i = i + 1;
    }
    assert(text@.take(i as int) =~= text@);
    n
}

/// Whether every character of `text` is `c`.
pub fn holds_only(text: &str, c: char) -> (r: bool)
    ensures
        r == only_holds(text@, c),
{
    let chars = chars_of(text);
    let mut i: usize = 0;
    while i < chars.len()
        invariant
            i <= chars@.len(),
            chars@ == text@,
            forall|j: int| 0 <= j < i ==> text@[j] == c,
        decreases chars@.len() - i,
    {
        if chars[i] != c {
            return false;
        }
        i = i + 1;
    }
    true
}

/// Trimming an end keeps a beginning of the text, which does not end with a trimmed character.
pub proof fn lemma_trimmed_end_of(t: Seq<char>, set: CharSet)
    ensures
        has_prefix(t, trimmed_end_of(t, set)),
        trimmed_end_of(t, set).len() > 0 ==> !set.contains(trimmed_end_of(t, set).last()),
        forall|i: int| trimmed_end_of(t, set).len() <= i < t.len() ==> set.contains(t[i]),
    decreases t.len(),
{
    if t.len() > 0 && set.contains(t.last()) {
        let shorter = t.drop_last();
        lemma_trimmed_end_of(shorter, set);
        let kept = trimmed_end_of(t, set);
        assert(t.take(kept.len() as int) =~= shorter.take(kept.len() as int));
        assert forall|i: int| kept.len() <= i < t.len() implies set.contains(t[i]) by {
            if i < shorter.len() {
                assert(shorter[i] == t[i]);
            }
        }
    } else {
        assert(t.take(t.len() as int) =~= t);
    }
}

/// Trimming an end removes trimmed characters that were put behind a text, and nothing more.
pub proof fn lemma_trimmed_end_of_padding(t: Seq<char>, padding: Seq<char>, set: CharSet)
    requires
        forall|i: int| 0 <= i < padding.len() ==> set.contains(#[trigger] padding[i]),
    ensures
        trimmed_end_of(t + padding, set) == trimmed_end_of(t, set),
    decreases padding.len(),
{
    if padding.len() > 0 {
        let shorter = padding.drop_last();
        assert((t + padding).drop_last() =~= t + shorter);
        assert((t + padding).last() == padding[padding.len() - 1]);
        assert forall|i: int| 0 <= i < shorter.len() implies set.contains(
            #[trigger] shorter[i],
        ) by {
            assert(shorter[i] == padding[i]);
        }
        lemma_trimmed_end_of_padding(t, shorter, set);
    } else {
        assert(t + padding =~= t);
    }
}

/// Trimming the start keeps an end of the text, which does not begin with white space.
pub proof fn lemma_trimmed_start(t: Seq<char>)
    ensures
        has_suffix(t, trimmed_start(t)),
        trimmed_start(t).len() > 0 ==> !is_white_space(trimmed_start(t)[0]),
        forall|i: int| 0 <= i < t.len() - trimmed_start(t).len() ==> is_white_space(t[i]),
    decreases t.len(),
{
    if t.len() > 0 && is_white_space(t[0]) {
        let shorter = t.drop_first();
        lemma_trimmed_start(shorter);
        let kept = trimmed_start(t);
        assert(t.skip(t.len() - kept.len()) =~= shorter.skip(shorter.len() - kept.len()));
        assert forall|i: int| 0 <= i < t.len() - kept.len() implies is_white_space(t[i]) by {
            if i > 0 {
                assert(shorter[i - 1] == t[i]);
            }
        }
    } else {
        assert(t.skip(0) =~= t);
    }
}

/// Trimming the start removes white space that was put before a text, and nothing more.
pub proof fn lemma_trimmed_start_padding(padding: Seq<char>, t: Seq<char>)
    requires
        forall|i: int| 0 <= i < padding.len() ==> is_white_space(#[trigger] padding[i]),
    ensures
        trimmed_start(padding + t) == trimmed_start(t),
    decreases padding.len(),
{
    if padding.len() > 0 {
        let shorter = padding.drop_first();
        assert((padding + t).drop_first() =~= shorter + t);
        assert forall|i: int| 0 <= i < shorter.len() implies is_white_space(
            #[trigger] shorter[i],
        ) by {
            assert(shorter[i] == padding[i + 1]);
        }
        lemma_trimmed_start_padding(shorter, t);
    } else {
        assert(padding + t =~= t);
    }
}

/// A trimmed text is trimmed: no white space stands at its ends.
pub proof fn law_trimming_is_final(t: Seq<char>)
    ensures
        trimmed(trimmed(t)) == trimmed(t),
        trimmed(t).len() > 0 ==> !is_white_space(trimmed(t)[0]) && !is_white_space(
            trimmed(t).last(),
        ),
{
    let begun = trimmed_start(t);
    let done = trimmed(t);
    lemma_trimmed_start(t);
    lemma_trimmed_end_of(begun, CharSet::Space);
    if done.len() > 0 {
        assert(done[0] == begun.take(done.len() as int)[0]);
        assert(trimmed_start(done) == done);
        assert(trimmed_end(done) == done);
    }
}

/// A suffix at the end goes as often as it stands there, and nothing else does.
pub proof fn law_suffixes_go(t: Seq<char>, suffix: Seq<char>)
    requires
        suffix.len() > 0,
    ensures
        !has_suffix(without_suffixes(t, suffix), suffix),
        has_prefix(t, without_suffixes(t, suffix)),
        without_suffixes(t + suffix, suffix) == without_suffixes(t, suffix),
        !has_suffix(t, suffix) ==> without_suffixes(t, suffix) == t,
    decreases t.len(),
{
    let longer = t + suffix;
    assert(longer.skip(t.len() as int) =~= suffix);
    assert(longer.take(t.len() as int) =~= t);
    if has_suffix(t, suffix) {
        let shorter = t.take(t.len() - suffix.len());
        law_suffixes_go(shorter, suffix);
        let kept = without_suffixes(t, suffix);
        assert(t.take(kept.len() as int) =~= shorter.take(kept.len() as int));
    } else {
        assert(t.take(t.len() as int) =~= t);
    }
}

} // verus!
