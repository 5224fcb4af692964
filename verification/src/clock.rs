//! The right edge of a Grok screen: the scroll bar and the time of day.

use crate::chars::{chars_of, is_digit, split_chars};
use crate::text::{
    ends_with, has_prefix, has_suffix, lemma_trimmed_end_of, lemma_trimmed_end_of_padding,
    only_holds, trim_end, trim_end_of, trimmed_end, trimmed_end_of, CharSet,
};
use vstd::prelude::*;

verus! {

/// `line` without the scroll bar and the white space that it ends with.
pub open spec fn without_gutter(line: Seq<char>) -> Seq<char> {
    trimmed_end_of(line, CharSet::SpaceOr('█'))
}

/// `line` without the scroll bar and the white space that it ends with.
pub fn strip_tui_right_gutter<'a>(line: &'a str) -> (r: &'a str)
    ensures
        r@ == without_gutter(line@),
{
    trim_end_of(line, CharSet::SpaceOr('█'))
}

/// Whether `t` ends with ` AM` or ` PM`.
pub open spec fn has_meridiem(t: Seq<char>) -> bool {
    has_suffix(t, " AM"@) || has_suffix(t, " PM"@)
}

/// What stands before ` AM` or ` PM`, without the white space between.
pub open spec fn before_meridiem(t: Seq<char>) -> Seq<char> {
    trimmed_end(t.take(t.len() - 3))
}

/// Whether `t` has `digits` digits before position `colon`, and two blanks before them.
pub open spec fn padded_hour(t: Seq<char>, colon: int, digits: int) -> bool {
    let start = colon - digits;
    &&& 2 <= start
    &&& t[start - 2] == ' '
    &&& t[start - 1] == ' '
    &&& forall|i: int| start <= i < colon ==> is_digit(#[trigger] t[i])
}

/// Where the hour of the time of day starts that `t` ends with: one or two digits after at
/// least two blanks, a colon, and two digits. `None` if `t` does not end so.
pub open spec fn clock_start(t: Seq<char>) -> Option<int> {
    let n = t.len() as int;
    if n < 3 || t[n - 3] != ':' || !is_digit(t[n - 2]) || !is_digit(t[n - 1]) {
        None
    } else if padded_hour(t, n - 3, 1) {
        Some(n - 4)
    } else if padded_hour(t, n - 3, 2) {
        Some(n - 5)
    } else {
        None
    }
}

/// `line` without its scroll bar, and without the time of day and the padding before it if it
/// ends with one.
pub open spec fn without_clock(line: Seq<char>) -> Seq<char> {
    let t = without_gutter(line);
    if !has_meridiem(t) {
        t
    } else {
        match clock_start(before_meridiem(t)) {
            Some(start) => trimmed_end(before_meridiem(t).take(start)),
            None => t,
        }
    }
}

/// `line` without its scroll bar, and without the time of day and the padding before it if it
/// ends with one.
pub fn strip_trailing_clock<'a>(line: &'a str) -> (r: &'a str)
    ensures
        r@ == without_clock(line@),
{
    let trimmed = strip_tui_right_gutter(line);
    if !ends_with(trimmed, " AM") && !ends_with(trimmed, " PM") {
        return trimmed;
    }
    proof {
        reveal_strlit(" AM");
        reveal_strlit(" PM");
    }
    let without_meridiem = trim_end(split_chars(trimmed, trimmed.unicode_len() - 3).0);
    match find_clock(without_meridiem) {
        Some(start) => trim_end(split_chars(without_meridiem, start).0),
        None => trimmed,
    }
}

/// Where the hour of the time of day starts that `text` ends with.
fn find_clock(text: &str) -> (r: Option<usize>)
    ensures
        match r {
            Some(start) => clock_start(text@) == Some(start as int) && start <= text@.len(),
            None => clock_start(text@) is None,
        },
{
    let chars = chars_of(text);
    let n: usize = chars.len();
    if n < 3 || chars[n - 3] != ':' || !digit(chars[n - 2]) || !digit(chars[n - 1]) {
        return None;
    }
    let colon: usize = n - 3;
    let mut start: usize = colon;
    while start > 0 && digit(chars[start - 1])
        invariant
            start <= colon < n == chars@.len(),
            forall|i: int| start <= i < colon ==> is_digit(#[trigger] chars@[i]),
        decreases start,
    {
        start = start - 1;
    }
    let hour: usize = colon - start;
    proof {
        assert forall|digits: int| 1 <= digits <= 2 && #[trigger] padded_hour(
            chars@,
            colon as int,
            digits,
        ) implies hour == digits by {
            if hour > digits {
                assert(is_digit(chars@[colon - digits - 1]));
            } else if hour < digits {
                assert(is_digit(chars@[start - 1]));
            }
        }
    }
    if hour == 0 || hour > 2 || start < 2 || chars[start - 1] != ' ' || chars[start - 2] != ' ' {
        return None;
    }
    assert(padded_hour(chars@, colon as int, hour as int));
    Some(start)
}

fn digit(c: char) -> (r: bool)
    ensures
        r == is_digit(c),
{
    '0' <= c && c <= '9'
}

/// A clock at the end of a line is taken off with the blanks before it, whatever the hour, the
/// minute and the gutter behind it, when at least two blanks stand before it.
pub proof fn law_padded_clock_is_stripped(
    text: Seq<char>,
    blanks: Seq<char>,
    hour: Seq<char>,
    minute: Seq<char>,
    meridiem: Seq<char>,
    gutter: Seq<char>,
)
    requires
        blanks.len() >= 2,
        only_holds(blanks, ' '),
        1 <= hour.len() <= 2,
        forall|i: int| 0 <= i < hour.len() ==> is_digit(#[trigger] hour[i]),
        minute.len() == 2,
        forall|i: int| 0 <= i < minute.len() ==> is_digit(#[trigger] minute[i]),
        meridiem == " AM"@ || meridiem == " PM"@,
        forall|i: int|
            0 <= i < gutter.len() ==> CharSet::SpaceOr('█').contains(#[trigger] gutter[i]),
    ensures
        without_clock(text + blanks + hour + seq![':'] + minute + meridiem + gutter)
            == trimmed_end(text),
{
    reveal_strlit(" AM");
    reveal_strlit(" PM");
    let time = text + blanks + hour + seq![':'] + minute;
    let stamped = time + meridiem;
    lemma_trimmed_end_of_padding(stamped, gutter, CharSet::SpaceOr('█'));
    assert(stamped.last() == 'M');
    assert(without_gutter(stamped + gutter) == stamped);
    assert(stamped.skip(stamped.len() - 3) =~= meridiem);
    assert(stamped.take(stamped.len() - 3) =~= time);
    let n = time.len() as int;
    assert(time[n - 1] == minute[1] && time[n - 2] == minute[0]);
    assert(trimmed_end(time) == time);
    assert(time[n - 3] == ':');
    let start = n - 3 - hour.len();
    assert(time[start - 1] == blanks[blanks.len() - 1]);
    assert(time[start - 2] == blanks[blanks.len() - 2]);
    assert(forall|i: int| start <= i < n - 3 ==> #[trigger] time[i] == hour[i - start]);
    assert(clock_start(time) == Some(start));
    assert(time.take(start) =~= text + blanks);
    assert forall|i: int| 0 <= i < blanks.len() implies CharSet::Space.contains(
        #[trigger] blanks[i],
    ) by {}
    lemma_trimmed_end_of_padding(text, blanks, CharSet::Space);
}

/// Nothing but the gutter is taken off a line unless it ends with a clock that two blanks pad.
pub proof fn law_only_padded_clocks_are_stripped(line: Seq<char>)
    ensures
        without_clock(line) != without_gutter(line) ==> {
            let t = before_meridiem(without_gutter(line));
            &&& has_meridiem(without_gutter(line))
            &&& clock_start(t) matches Some(start)
            &&& 2 <= start
            &&& t[start - 1] == ' '
            &&& t[start - 2] == ' '
            &&& without_clock(line) == trimmed_end(t.take(start))
        },
{
}

/// What is left of a line is its beginning.
pub proof fn law_clock_leaves_the_beginning(line: Seq<char>)
    ensures
        has_prefix(line, without_clock(line)),
{
    let t = without_gutter(line);
    lemma_trimmed_end_of(line, CharSet::SpaceOr('█'));
    if has_meridiem(t) {
        reveal_strlit(" AM");
        reveal_strlit(" PM");
        let timed = t.take(t.len() - 3);
        let kept = before_meridiem(t);
        lemma_trimmed_end_of(timed, CharSet::Space);
        if let Some(start) = clock_start(kept) {
            lemma_trimmed_end_of(kept.take(start), CharSet::Space);
            let left = without_clock(line);
            let n = left.len() as int;
            assert(left =~= kept.take(start).take(n));
            assert(left =~= kept.take(n));
            assert(left =~= timed.take(n));
            assert(left =~= t.take(n));
            assert(line.take(n) =~= left);
        }
    }
}

/// The scrollbar and the blanks in a line's right gutter do not matter.
pub proof fn law_gutter_is_ignored(line: Seq<char>, gutter: Seq<char>)
    requires
        forall|i: int|
            0 <= i < gutter.len() ==> CharSet::SpaceOr('█').contains(#[trigger] gutter[i]),
    ensures
        without_gutter(line + gutter) == without_gutter(line),
        without_clock(line + gutter) == without_clock(line),
{
    lemma_trimmed_end_of_padding(line, gutter, CharSet::SpaceOr('█'));
}

} // verus!
