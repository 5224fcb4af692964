//! Characters, their UTF-8 widths, and moving between `str` and characters.
//!
//! A text is modelled by its characters, `text@`. Byte positions appear only where a
//! position leaves the library; [`suffix_at`] and the lemmas here connect the two.

use vstd::prelude::*;
use vstd::utf8::*;

verus! {

broadcast use {encode_utf8_valid_utf8, encode_utf8_decode_utf8};

/// The code points that have the Unicode property `White_Space`.
pub open spec fn is_white_space(c: char) -> bool {
    ||| '\u{9}' <= c && c <= '\u{d}'
    ||| c == ' '
    ||| c == '\u{85}'
    ||| c == '\u{a0}'
    ||| c == '\u{1680}'
    ||| '\u{2000}' <= c && c <= '\u{200a}'
    ||| c == '\u{2028}'
    ||| c == '\u{2029}'
    ||| c == '\u{202f}'
    ||| c == '\u{205f}'
    ||| c == '\u{3000}'
}

/// `char::is_whitespace` of the standard library: it holds of exactly the characters that
/// have the Unicode property `White_Space`, listed in [`is_white_space`].
pub assume_specification[ char::is_whitespace ](c: char) -> (r: bool)
    ensures
        r == is_white_space(c),
;

/// The decimal digits `0` to `9`.
pub open spec fn is_digit(c: char) -> bool {
    '0' <= c && c <= '9'
}

/// The letters `a` to `z`.
pub open spec fn is_lowercase_letter(c: char) -> bool {
    'a' <= c && c <= 'z'
}

/// How many bytes UTF-8 takes for `t`.
pub open spec fn utf8_len(t: Seq<char>) -> nat {
    encode_utf8(t).len()
}

/// The part of `t` that starts `offset` bytes into its UTF-8 form.
pub open spec fn suffix_at(t: Seq<char>, offset: nat) -> Seq<char> {
    decode_utf8(encode_utf8(t).subrange(offset as int, utf8_len(t) as int))
}

/// Whether a character starts `offset` bytes into the UTF-8 form of `t`, or `t` ends there.
pub open spec fn is_boundary(t: Seq<char>, offset: nat) -> bool {
    is_char_boundary(encode_utf8(t), offset as int)
}

/// UTF-8 encodes a concatenation piece by piece.
pub proof fn lemma_encode_concat(a: Seq<char>, b: Seq<char>)
    ensures
        encode_utf8(a + b) == encode_utf8(a) + encode_utf8(b),
    decreases a.len(),
{
    if a.len() == 0 {
        assert(a + b =~= b);
        assert(encode_utf8(a) + encode_utf8(b) =~= encode_utf8(b));
    } else {
        lemma_encode_concat(a.drop_first(), b);
        assert((a + b).drop_first() =~= a.drop_first() + b);
        assert((a + b)[0] == a[0]);
        assert(encode_utf8(a + b) =~= encode_utf8(a) + encode_utf8(b));
    }
}

/// The end of a prefix is a character boundary.
pub proof fn lemma_prefix_is_boundary(a: Seq<char>, b: Seq<char>)
    ensures
        is_boundary(a + b, utf8_len(a)),
    decreases a.len(),
{
    if a.len() > 0 {
        let bytes = encode_utf8(a + b);
        lemma_encode_concat(a, b);
        lemma_prefix_is_boundary(a.drop_first(), b);
        encode_utf8_first_scalar(a + b);
        assert((a + b)[0] == a[0]);
        assert((a + b).drop_first() =~= a.drop_first() + b);
        assert(pop_first_scalar(bytes) =~= encode_utf8(a.drop_first() + b));
    }
}

/// What follows the bytes of a prefix is the rest of the characters.
pub proof fn lemma_suffix_at_prefix(a: Seq<char>, b: Seq<char>)
    ensures
        suffix_at(a + b, utf8_len(a)) == b,
{
    lemma_encode_concat(a, b);
    assert(encode_utf8(a + b).subrange(utf8_len(a) as int, utf8_len(a + b) as int) =~= encode_utf8(
        b,
    ));
}

/// The number of bytes that UTF-8 takes for `c`.
fn char_width(c: char) -> (width: usize)
    ensures
        width == encode_scalar(c as u32).len(),
        1 <= width <= 4,
{
    let scalar: u32 = c as u32;
    if scalar < 0x80 {
        1
    } else if scalar < 0x800 {
        2
    } else if scalar < 0x10000 {
        3
    } else {
        4
    }
}

/// The characters of `text`.
pub fn chars_of(text: &str) -> (chars: Vec<char>)
    ensures
        chars@ == text@,
{
    let mut chars: Vec<char> = Vec::new();
    let mut rest = text.chars();
    loop
        invariant
            text@ == chars@ + vstd::std_specs::iter::IteratorSpec::remaining(&rest),
        decreases text@.len() - chars@.len(),
    {
        match rest.next() {
            None => {
                assert(chars@ =~= text@);
                return chars;
            },
            Some(c) => {
                chars.push(c);
            },
        }
    }
}

/// `text` cut after its first `count` characters.
pub fn split_chars<'a>(text: &'a str, count: usize) -> (parts: (&'a str, &'a str))
    requires
        count <= text@.len(),
    ensures
        parts.0@ == text@.take(count as int),
        parts.1@ == text@.skip(count as int),
{
    let total: usize = text.as_bytes().len();
    let mut rest = text.chars();
    let mut taken: usize = 0;
    let mut offset: usize = 0;
    assert(text@.skip(0) =~= text@);
    while taken < count
        invariant
            taken <= count <= text@.len(),
            total == utf8_len(text@),
            vstd::std_specs::iter::IteratorSpec::remaining(&rest) == text@.skip(taken as int),
            offset == utf8_len(text@.take(taken as int)),
        decreases count - taken,
    {
        match rest.next() {
            None => {},
            Some(c) => {
                proof {
                    let next = taken as int + 1;
                    let one = seq![c];
                    assert(text@.take(next) =~= text@.take(taken as int) + one);
                    lemma_encode_concat(text@.take(taken as int), one);
                    assert(one.drop_first() =~= Seq::<char>::empty());
                    assert(encode_utf8(one) =~= encode_scalar(c as u32) + encode_utf8(
                        one.drop_first(),
                    ));
                    assert(text@ =~= text@.take(next) + text@.skip(next));
                    lemma_encode_concat(text@.take(next), text@.skip(next));
                }
                offset = offset + char_width(c);
            },
        }
        taken = taken + 1;
    }
    proof {
        let head = text@.take(count as int);
        let tail = text@.skip(count as int);
        assert(text@ =~= head + tail);
        lemma_prefix_is_boundary(head, tail);
        lemma_encode_concat(head, tail);
        assert(encode_utf8(text@).subrange(0, offset as int) =~= encode_utf8(head));
        assert(encode_utf8(text@).subrange(offset as int, total as int) =~= encode_utf8(tail));
    }
    let parts = text.split_at(offset);
    proof {
        assert(decode_utf8(encode_utf8(parts.0@)) == text@.take(count as int));
        assert(decode_utf8(encode_utf8(parts.1@)) == text@.skip(count as int));
    }
    parts
}

/// The part of `text` that starts `offset` bytes into it.
pub fn text_from<'a>(text: &'a str, offset: usize) -> (rest: &'a str)
    requires
        is_boundary(text@, offset as nat),
    ensures
        rest@ == suffix_at(text@, offset as nat),
{
    let parts = text.split_at(offset);
    assert(decode_utf8(encode_utf8(parts.1@)) == suffix_at(text@, offset as nat));
    parts.1
}

} // verus!
