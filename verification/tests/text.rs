use herdr::chars::{chars_of, split_chars, text_from};
use herdr::lines::{
    compact_chars, each_line, join_lines, join_strings, lines, normalize_ws, remove_chars,
};
use herdr::number::{decimal_text, parse_u32, parse_u64, signed_decimal_text};
use herdr::text::{
    blank, contains_char, contains_text, count_char, count_leading, ends_with, find_text,
    holds_only, same_text, starts_with, starts_with_char, strip_prefix, trim, trim_end,
    trim_end_of, trim_end_text, trim_start, CharSet,
};

/// Texts with line ends of all kinds, characters of all widths and white space of many kinds.
fn samples() -> Vec<&'static str> {
    vec![
        "",
        " ",
        "\n",
        "\r\n",
        "\n\n",
        "a",
        "a\n",
        "a\r\n",
        "a\r",
        "a\r\r\nb",
        "a\nb",
        "a\n\nb\n",
        "  a  b\t\u{3000}c  ",
        "\u{a0}\u{2003}상태 확인\u{2028}",
        "─ Worked for 1m ─\n• 답\n  이어서\n",
        "❯ hello…   6:07 PM █",
        "😀 é ¢ 한\n\n😀",
    ]
}

#[test]
fn white_space_is_that_of_char() {
    let mut code: u32 = 0;
    while code <= 0x10ffff {
        if let Some(c) = char::from_u32(code) {
            let text = c.to_string();
            assert_eq!(compact_chars(&text).is_empty(), c.is_whitespace(), "{:x}", code);
        }
        code += 1;
    }
}

#[test]
fn trimming_agrees_with_str() {
    for text in samples() {
        assert_eq!(trim(text), text.trim());
        assert_eq!(trim_start(text), text.trim_start());
        assert_eq!(trim_end(text), text.trim_end());
        assert_eq!(blank(text), text.trim().is_empty());
        assert_eq!(trim(trim(text)), trim(text));
        assert_eq!(
            trim_end_of(text, CharSet::SpaceOr('█')),
            text.trim_end_matches(|c: char| c == '█' || c.is_whitespace()),
        );
        assert_eq!(trim_end_of(text, CharSet::Only('\n')), text.trim_end_matches('\n'));
    }
    assert_eq!(trim_end_text("a......", "..."), "a");
    assert_eq!(trim_end_text("a....", "..."), "a.");
    assert_eq!(trim_end_text("...", "..."), "");
}

#[test]
fn lines_agree_with_str() {
    for text in samples() {
        let expected: Vec<&str> = text.lines().collect();
        assert_eq!(lines(text), expected, "{:?}", text);
        assert_eq!(join_lines(&expected), expected.join("\n"));
        let owned: Vec<String> = expected.iter().map(|line| line.to_string()).collect();
        assert_eq!(join_strings(&owned), owned.join("\n"));
    }
}

#[test]
fn each_line_gives_offsets() {
    assert_eq!(each_line("é\n❯ x\r\n\nend"), vec![(0, "é"), (3, "❯ x\r"), (10, ""), (11, "end")]);
    assert_eq!(each_line(""), vec![]);
    assert_eq!(each_line("a\n"), vec![(0, "a")]);
    for text in samples() {
        for (offset, line) in each_line(text) {
            assert!(text[offset..].starts_with(line));
            assert_eq!(text_from(text, offset), &text[offset..]);
        }
    }
}

#[test]
fn words_and_characters_agree_with_str() {
    for text in samples() {
        let words: Vec<&str> = text.split_whitespace().collect();
        assert_eq!(normalize_ws(text), words.join(" "));
        assert_eq!(normalize_ws(&normalize_ws(text)), normalize_ws(text));
        assert_eq!(compact_chars(text), words.concat());
        assert_eq!(compact_chars(&normalize_ws(text)), compact_chars(text));
        assert_eq!(remove_chars(text, CharSet::Only('\r')), text.replace('\r', ""));
        let chars: Vec<char> = text.chars().collect();
        assert_eq!(chars_of(text), chars);
        for count in 0..=chars.len() {
            let head: String = chars[..count].iter().collect();
            let tail: String = chars[count..].iter().collect();
            assert_eq!(split_chars(text, count), (head.as_str(), tail.as_str()));
        }
    }
}

#[test]
fn searching_agrees_with_str() {
    let parts = ["", "a", "❯ ", "\n", "답", "b\t", "  ", "6:07 PM", "nowhere to be found"];
    for text in samples() {
        for part in parts {
            assert_eq!(starts_with(text, part), text.starts_with(part));
            assert_eq!(ends_with(text, part), text.ends_with(part));
            assert_eq!(contains_text(text, part), text.contains(part));
            assert_eq!(strip_prefix(text, part), text.strip_prefix(part));
            assert_eq!(same_text(text, part), text == part);
            let position = text.find(part).map(|at| text[..at].chars().count());
            assert_eq!(find_text(text, part), position);
        }
        for c in ['a', ' ', '\n', '❯', '█', '한'] {
            assert_eq!(starts_with_char(text, c), text.starts_with(c));
            assert_eq!(contains_char(text, c), text.contains(c));
            assert_eq!(count_char(text, c), text.chars().filter(|found| *found == c).count());
            assert_eq!(count_leading(text, c), text.chars().take_while(|found| *found == c).count());
            assert_eq!(holds_only(text, c), text.chars().all(|found| found == c));
        }
    }
}

#[test]
fn numbers_are_written_and_read() {
    for n in [0u64, 7, 10, 99, 100, 1_800_000, 4_294_967_295, u64::MAX] {
        assert_eq!(decimal_text(n), n.to_string());
        assert_eq!(parse_u64(&n.to_string()), Some(n));
    }
    for n in [0i32, 1, -1, 127, -127, i32::MAX, i32::MIN] {
        assert_eq!(signed_decimal_text(n), n.to_string());
    }
    for text in [
        "", "+", "-", "-0", "-1", "+5", "007", "+007", "1 ", " 1", "1_0", "0x1", "4294967295",
        "4294967296", "18446744073709551615", "18446744073709551616", "99999999999999999999999", "٣",
    ] {
        assert_eq!(parse_u64(text), text.parse::<u64>().ok(), "{:?}", text);
        assert_eq!(parse_u32(text), text.parse::<u32>().ok(), "{:?}", text);
    }
}
