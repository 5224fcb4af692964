use herdr::classify::{
    is_box_drawing_line, is_codex_prompt_line, is_codex_status_footer, is_codex_tool_or_notice,
    is_grok_chrome_line, is_grok_input_box_line, is_grok_status_bar, is_herdr_unwrap_duplicate,
    is_markdown_block_start, is_ordered_list_item, is_outer_quote_frame, is_tui_separator,
    looks_like_grok_tui, prevents_wrapped_continuation,
};
use herdr::clock::{strip_trailing_clock, strip_tui_right_gutter};
use herdr::echo::{
    consume_prompt_echo, find_any_grok_prompt_offset, find_grok_prompt_offset,
    find_marked_prompt_offset, following_is_real_grok_turn, grok_echo_text,
    grok_line_matches_prompt, grok_skip_wrapped_prompt, is_truncated_prompt_echo,
    prompt_echo_text, slice_after_prompt_echo,
};
use herdr::grok_line::{clean_grok_content_line, unwrap_grok_quote_line};
use herdr::lines::{compact_chars, lines};
use herdr::response::{
    codex_final_response, extract_final_response, grok_final_response, strip_legacy_markers,
    trimmed_first_line, unwrap_terminal_text,
};
use herdr::session::{answer_step, TurnStep};
use herdr::turn::{current_turn_output, snapshot_delta, take_until_codex_end, take_until_separator};

#[test]
fn separators_are_recognised() {
    assert!(is_tui_separator("─ Worked for 2m 3s ─────"));
    assert!(is_tui_separator("  Worked for 5s"));
    assert!(is_tui_separator("Help improve Grok"));
    assert!(is_tui_separator("╭────╮"));
    assert!(is_tui_separator("Shift+Tab to cycle"));
    assert!(is_tui_separator("────────────────────"));
    assert!(!is_tui_separator("───────────────────"));
    assert!(!is_tui_separator("────────────────────x"));
    assert!(!is_tui_separator("text"));
    assert!(!is_tui_separator(""));
}

#[test]
fn codex_lines_are_recognised() {
    assert!(is_codex_prompt_line("› ask"));
    assert!(is_codex_prompt_line("  ›"));
    assert!(!is_codex_prompt_line("> ask"));
    assert!(is_codex_status_footer("  gpt-5 high · ~/work"));
    assert!(is_codex_status_footer("model · ~/work"));
    assert!(!is_codex_status_footer("gpt-5 high"));
    assert!(!is_codex_status_footer("a · b"));
    assert!(is_codex_tool_or_notice("• Ran ls"));
    assert!(is_codex_tool_or_notice("• Explored"));
    assert!(is_codex_tool_or_notice("• Thought for 2s"));
    assert!(is_codex_tool_or_notice("• Model changed"));
    assert!(is_codex_tool_or_notice("  ⚠ careful"));
    assert!(!is_codex_tool_or_notice("• Running late"));
}

#[test]
fn grok_lines_are_recognised() {
    assert!(is_grok_input_box_line("  │ ❯ next"));
    assert!(is_grok_input_box_line("│❯"));
    assert!(is_grok_input_box_line("╭──"));
    assert!(is_grok_input_box_line("╰──"));
    assert!(!is_grok_input_box_line("❯ next"));
    assert!(is_grok_chrome_line("◆ Read file"));
    assert!(is_grok_chrome_line(" ❙ x"));
    assert!(is_grok_chrome_line("┃"));
    assert!(is_grok_chrome_line("◈"));
    assert!(is_grok_chrome_line("Thought for 3s"));
    assert!(is_grok_chrome_line(" ▼ "));
    assert!(is_grok_chrome_line("▲"));
    assert!(!is_grok_chrome_line("▼ more"));
    assert!(is_grok_status_bar("12K / 256K ✓"));
    assert!(is_grok_status_bar("12K / 256K 5%"));
    assert!(!is_grok_status_bar("12K / 256K"));
    assert!(is_grok_status_bar("~/project"));
    assert!(!is_grok_status_bar("~project"));
    assert!(is_grok_status_bar("a ▲ b"));
    assert!(is_herdr_unwrap_duplicate("  ┆ copy"));
    assert!(!is_herdr_unwrap_duplicate("copy ┆"));
    assert!(is_outer_quote_frame("┌────┐"));
    assert!(is_outer_quote_frame("└────┘"));
    assert!(!is_outer_quote_frame("┌──┬──┐"));
    assert!(!is_outer_quote_frame("└──┴──┘"));
    assert!(!is_outer_quote_frame("├──┤"));
    assert!(is_box_drawing_line("  ├──┤"));
    assert!(!is_box_drawing_line("x ├──┤"));
    assert!(!is_box_drawing_line(""));
}

#[test]
fn markdown_is_recognised() {
    assert!(is_ordered_list_item("12. item"));
    assert!(is_ordered_list_item("3) item"));
    assert!(!is_ordered_list_item("12.item"));
    assert!(!is_ordered_list_item(". item"));
    assert!(!is_ordered_list_item("٣. item"));
    for line in [
        "```rust", "~~~", "# a", "###### a", "- a", "* a", "+ a", "• a", "> a", "|a|", "│ a", "\ta",
        "    a", "  1. a",
    ] {
        assert!(is_markdown_block_start(line), "{}", line);
    }
    for line in ["text", "#a", "####### a", "-a", "  text", "   text", "1.a"] {
        assert!(!is_markdown_block_start(line), "{}", line);
    }
    for line in ["#a", ">a", "|", "```", "~~~", "┌", "\tx", "    x"] {
        assert!(prevents_wrapped_continuation(line), "{}", line);
    }
    for line in ["- a", "text", "1. a", "• a"] {
        assert!(!prevents_wrapped_continuation(line), "{}", line);
    }
}

#[test]
fn padded_clock_is_stripped() {
    assert_eq!(strip_trailing_clock("hello  6:07 PM"), "hello");
    assert_eq!(strip_trailing_clock("hello      12:34 AM   █ "), "hello");
    assert_eq!(strip_trailing_clock("  6:07 PM"), "");
    assert_eq!(strip_trailing_clock("hello  6:07  PM"), "hello");
}

#[test]
fn clock_without_padding_is_kept() {
    assert_eq!(strip_trailing_clock("at 6:07 PM"), "at 6:07 PM");
    assert_eq!(strip_trailing_clock("at  6:07"), "at  6:07");
    assert_eq!(strip_trailing_clock("at  123:07 PM"), "at  123:07 PM");
    assert_eq!(strip_trailing_clock("at  6:7 PM"), "at  6:7 PM");
    assert_eq!(strip_trailing_clock("at  :07 PM"), "at  :07 PM");
    assert_eq!(strip_trailing_clock("6:07 PM"), "6:07 PM");
    assert_eq!(strip_trailing_clock(" PM"), " PM");
}

#[test]
fn clock_behind_a_wide_character_is_kept() {
    assert_eq!(strip_trailing_clock("시간6:07 PM"), "시간6:07 PM");
    assert_eq!(strip_trailing_clock("│6:07 PM █"), "│6:07 PM");
}

#[test]
fn gutter_is_stripped() {
    assert_eq!(strip_tui_right_gutter("text  █ "), "text");
    assert_eq!(strip_tui_right_gutter("█"), "");
    assert_eq!(strip_tui_right_gutter("█ text"), "█ text");
}

#[test]
fn grok_content_is_cleaned() {
    assert_eq!(clean_grok_content_line("  text   6:07 PM  █"), "text");
    assert_eq!(clean_grok_content_line("│ text │ █"), "│ text");
    assert_eq!(unwrap_grok_quote_line("│ text │").as_deref(), Some("text"));
    assert_eq!(unwrap_grok_quote_line("│ a │ b │").as_deref(), Some("a │ b"));
    assert_eq!(unwrap_grok_quote_line("│ a │ b │ c │").as_deref(), Some("│ a │ b │ c"));
    assert_eq!(unwrap_grok_quote_line("│ │ nested │"), Some("│ nested".to_string()));
    assert_eq!(unwrap_grok_quote_line("┌────┐"), None);
    assert_eq!(unwrap_grok_quote_line("┆ copy"), None);
    assert_eq!(unwrap_grok_quote_line("~/project"), None);
    assert_eq!(unwrap_grok_quote_line("   ").as_deref(), Some(""));
}

#[test]
fn prompt_marks_are_dropped() {
    assert_eq!(prompt_echo_text("  ❯ hello   world   6:07 PM"), "hello world");
    assert_eq!(prompt_echo_text("› hello"), "hello");
    assert_eq!(prompt_echo_text("> hello"), "hello");
    assert_eq!(prompt_echo_text("hello"), "hello");
    assert_eq!(prompt_echo_text(">hello"), ">hello");
    assert_eq!(grok_echo_text("❯ hello"), "hello");
}

#[test]
fn prompt_lines_match() {
    assert!(grok_line_matches_prompt("❯ hello world", "hello world"));
    assert!(grok_line_matches_prompt("❯ hello", "hello world"));
    assert!(grok_line_matches_prompt("❯ hello world", "hello"));
    assert!(!grok_line_matches_prompt("❯ other", "hello"));
    assert!(!grok_line_matches_prompt("❯  ", "hello"));
}

#[test]
fn wrapped_echo_is_consumed() {
    let shown = ["❯ hello wo", "  rld again", "answer"];
    assert_eq!(consume_prompt_echo(&shown, "hello world again"), 2);
    let broken = ["› one two", "", "  three", "text"];
    assert_eq!(consume_prompt_echo(&broken, "one two three"), 3);
    let other = ["› one two", "unrelated", "text"];
    assert_eq!(consume_prompt_echo(&other, "one two three"), 1);
    let separated = ["› one two", "Worked for 1s", "three"];
    assert_eq!(consume_prompt_echo(&separated, "one two three"), 1);
    let short = ["› one"];
    assert_eq!(consume_prompt_echo(&short, "one two"), 1);
    let different = ["› different"];
    assert_eq!(consume_prompt_echo(&different, "one"), 1);
    assert_eq!(consume_prompt_echo(&[], "one"), 0);
}

#[test]
fn cut_echo_ends_there() {
    assert!(is_truncated_prompt_echo("hello… "));
    assert!(is_truncated_prompt_echo("hello..."));
    assert!(!is_truncated_prompt_echo("hello.."));
    let shown = ["❯ hello wo…", "rld"];
    assert_eq!(consume_prompt_echo(&shown, "hello world"), 1);
}

#[test]
fn echo_of_a_blank_prompt_is_indented() {
    let shown = ["  ❯ a", "    b", "     c", "  d"];
    assert_eq!(grok_skip_wrapped_prompt(&shown), 3);
    assert_eq!(consume_prompt_echo(&shown, " \n "), 3);
    assert_eq!(grok_skip_wrapped_prompt(&["❯ a", " ❯ b"]), 1);
    assert_eq!(grok_skip_wrapped_prompt(&["❯ a", " ", " b"]), 1);
    assert_eq!(grok_skip_wrapped_prompt(&["❯ a", " ◆ b"]), 1);
    assert_eq!(grok_skip_wrapped_prompt(&[]), 0);
}

#[test]
fn echo_is_sliced_off() {
    assert_eq!(slice_after_prompt_echo("› hi\nanswer\nmore", "hi"), "answer\nmore");
    assert_eq!(slice_after_prompt_echo("› hi", "hi"), "");
    assert_eq!(slice_after_prompt_echo("", "hi"), "");
}

#[test]
fn real_turn_is_preferred() {
    let screen = "❯ hi\n▲ pinned\ntext\n❯ hi\n◆ Read\nanswer\n❯ hi\n";
    let first = 0;
    let second = screen.match_indices("❯ hi").nth(1).map(|found| found.0);
    assert_eq!(find_grok_prompt_offset(screen, "hi"), second);
    assert!(following_is_real_grok_turn(screen, second.unwrap()));
    let quiet = "❯ hi\ntext\n❯ hi\n";
    assert_eq!(find_grok_prompt_offset(quiet, "hi"), Some(first));
    assert_eq!(find_grok_prompt_offset(quiet, "other"), None);
    assert_eq!(find_any_grok_prompt_offset("text\n❯ a\n❯ b\n"), Some(5));
    assert_eq!(find_any_grok_prompt_offset("text\n❯ \n"), None);
    assert!(!following_is_real_grok_turn("❯ hi\n▲\n◆ Read\n", 0));
    assert!(following_is_real_grok_turn("❯ hi\nThought for 2s\n", 0));
}

#[test]
fn work_counts_within_sixteen_lines() {
    let near = format!("❯ hi\n{}◆ Read\n", "x\n".repeat(14));
    let far = format!("❯ hi\n{}◆ Read\n", "x\n".repeat(15));
    assert!(following_is_real_grok_turn(&near, 0));
    assert!(!following_is_real_grok_turn(&far, 0));
}

#[test]
fn input_box_is_no_prompt() {
    assert_eq!(find_grok_prompt_offset("│ ❯ hi │\n", "hi"), None);
    assert_eq!(find_any_grok_prompt_offset("│ ❯ hi │\n"), None);
}

#[test]
fn last_marked_prompt_is_taken() {
    let screen = "› hi\nold\n› hi\nnew\n";
    assert_eq!(find_marked_prompt_offset(screen, "hi", "› "), screen.rfind("› hi"));
    assert_eq!(find_marked_prompt_offset(screen, "hi", "> "), None);
    assert_eq!(find_marked_prompt_offset("   > hi\n", "hi", "> "), None);
    assert_eq!(find_marked_prompt_offset("  > hi\n", "hi", "> "), Some(0));
    assert_eq!(find_marked_prompt_offset("   › hi\n", "hi", "› "), Some(0));
    assert_eq!(find_marked_prompt_offset(screen, " ", "› "), None);
}

#[test]
fn new_lines_are_the_delta() {
    assert_eq!(snapshot_delta("a\nb\n", "a\nb\nc\nd\n"), "c\nd");
    assert_eq!(snapshot_delta("a\nb\nc\n", "b\nc\nd\n"), "d");
    assert_eq!(snapshot_delta("x\nx\n", "x\nx\nx\n"), "x");
    assert_eq!(snapshot_delta("a\n", "b\n"), "b");
    assert_eq!(snapshot_delta("", " b \n"), "b");
    assert_eq!(snapshot_delta("a\nb", "a\nb"), "");
}

#[test]
fn regions_end_where_they_should() {
    assert_eq!(take_until_separator("a\nb\nWorked for 1s\nc"), "a\nb");
    assert_eq!(take_until_codex_end("› hi\nanswer\n› next\nc"), "› hi\nanswer");
    assert_eq!(take_until_codex_end("› hi\nanswer\ngpt-5 · ~/x\nc"), "› hi\nanswer");
    assert_eq!(take_until_codex_end(""), "");
}

#[test]
fn codex_turn_is_what_follows_the_last_echo() {
    let screen = "› ask\n• old\n› ask\n\n• new answer\n  second line\n\n› next\n• later\n";
    assert_eq!(current_turn_output("before", screen, "ask"), "\n• new answer\n  second line");
    assert_eq!(
        extract_final_response(&current_turn_output("", screen, "ask"), "ask"),
        "• new answer\nsecond line",
    );
}

#[test]
fn agy_turn_is_what_follows_the_last_echo() {
    let screen = "> ask\nold\n> ask\nThe answer goes\non here.\n\nNext part\n────────────────────────\n> \n";
    assert_eq!(
        current_turn_output("", screen, "ask"),
        "The answer goes\non here.\n\nNext part",
    );
    assert_eq!(
        extract_final_response(&current_turn_output("", screen, "ask"), "ask"),
        "The answer goes on here.\n\nNext part",
    );
}

#[test]
fn agy_answer_is_published() {
    let screen = "> ask some\n  thing\nCOKACDIR_RESPONSE_BEGIN_1\nOne line\nand its rest.\n\nEnd\nWorked for 1s\n";
    let turn = current_turn_output("", screen, "ask something");
    assert_eq!(extract_final_response(&turn, "ask something"), "One line and its rest.\n\nEnd");
    assert!(matches!(
        answer_step("", screen, "ask something"),
        TurnStep::Publish(answer) if answer == "One line and its rest.\n\nEnd"
    ));
}

#[test]
fn indented_agy_answer_is_published() {
    let screen = "> ask\n\n  The answer\n  goes on\nplain\n\nWorked for 1s\n> \n";
    assert_eq!(current_turn_output("", screen, "ask"), "\n  The answer\n  goes on\nplain");
    assert!(matches!(
        answer_step("", screen, "ask"),
        TurnStep::Publish(answer) if answer == "The answer\ngoes on"
    ));
}

#[test]
fn prompt_with_a_blank_first_line_is_answered() {
    let screen = "old\n❯ ask\n◆ Read\nyes\n╭────╮\n";
    for prompt in ["ask", "\nask", " \n\n ask\n"] {
        assert!(
            matches!(answer_step("", screen, prompt), TurnStep::Publish(answer) if answer == "yes"),
            "{:?}",
            prompt,
        );
    }
}

#[test]
fn repeated_prompt_without_work_changes_nothing() {
    let screen = "old\n❯ ask\n◆ Read\nyes\n❯ ask\nmore\n╭────╮\n";
    assert!(matches!(
        answer_step("", screen, "ask"),
        TurnStep::Publish(answer) if answer == "yes\nmore"
    ));
}

#[test]
fn cut_codex_echo_is_answered() {
    let screen = "› ask for a long\n  thi…\n\n• yes\n\n› next\n";
    assert_eq!(current_turn_output("", screen, "ask for a long thing"), "\n• yes");
    assert!(matches!(
        answer_step("", screen, "ask for a long thing"),
        TurnStep::Publish(answer) if answer == "• yes"
    ));
}

#[test]
fn grok_turn_is_what_follows_the_prompt() {
    let screen = "old\n❯ ask   6:07 PM █\n◆ Read file\nThe answer\nThe answer\n\n\nNext part\n╭────╮\n│ ❯ │\n";
    let turn = current_turn_output("", screen, "ask");
    assert_eq!(turn, "❯ ask   6:07 PM █\n◆ Read file\nThe answer\nThe answer\n\n\nNext part");
    assert_eq!(extract_final_response(&turn, "ask"), "The answer\n\nNext part");
}

#[test]
fn turn_without_an_echo_is_the_delta() {
    assert_eq!(current_turn_output("x\n", "x\ny\n", "ask"), "y");
    assert_eq!(current_turn_output("x\n", "x\na\nb\n", "ask"), "a\nb");
    assert_eq!(current_turn_output("a\n", "a\nb\n", "  \n "), "b");
}

#[test]
fn answers_are_not_blank() {
    assert_eq!(codex_final_response("plain\n\n"), None);
    assert_eq!(codex_final_response(""), None);
    assert_eq!(grok_final_response("❯ ask\n◆ Read\n", "ask"), None);
    assert_eq!(grok_final_response("❯ ask\nyes\n", "ask").as_deref(), Some("yes"));
    assert_eq!(grok_final_response("❯ ask\nyes\n", "").as_deref(), Some("yes"));
    assert_eq!(grok_final_response("plain\n", "ask"), None);
    assert!(!looks_like_grok_tui("plain"));
    assert!(looks_like_grok_tui("◆ Read"));
    assert!(looks_like_grok_tui("a ❯ b"));
    assert!(!looks_like_grok_tui("a ❯ b\n› c"));
}

#[test]
fn codex_keeps_the_words_of_the_agent() {
    let screen = "• Ran ls\n  └ out\n• Answer\n  more\nplain\n\n⚠ note\n\tlast\n› next\n• later";
    assert_eq!(
        codex_final_response(screen).as_deref(),
        Some("└ out\n• Answer\nmore\n\nlast"),
    );
}

#[test]
fn markers_are_gone() {
    assert_eq!(
        strip_legacy_markers("\n COKACDIR_RESPONSE_BEGIN_1 \r\n a\n b \nCOKACDIR_RESPONSE_END_1\n"),
        "a\n b",
    );
    assert_eq!(strip_legacy_markers("COKACDIR_RESPONSE_BEGIN_"), "");
    assert_eq!(strip_legacy_markers("x COKACDIR_RESPONSE_BEGIN_"), "x COKACDIR_RESPONSE_BEGIN_");
}

#[test]
fn first_line_is_trimmed() {
    assert_eq!(trimmed_first_line("  a \nb"), "a");
    assert_eq!(trimmed_first_line(""), "");
    assert_eq!(trimmed_first_line("\na"), "");
}

#[test]
fn terminal_text_is_unwrapped() {
    let shown = [
        "A line that", "goes on  ", "", "", "- item", "continued", "# Title", "text", "```", "  code  ",
        "", "more", "```", "after", "", "",
    ];
    let text = unwrap_terminal_text(&shown);
    assert_eq!(
        text,
        "A line that goes on\n\n- item continued\n# Title\ntext\n```\n  code\n\nmore\n```\nafter",
    );
    assert_eq!(compact_chars(&text), compact_chars(&shown.join("\n")));
    assert_eq!(unwrap_terminal_text(&[]), "");
}

#[test]
fn other_screens_are_kept() {
    let screen = "One line\nand its rest\n\nCOKACDIR_RESPONSE_END_1\n| a |\n| b |\n";
    assert_eq!(extract_final_response(screen, "ask"), "One line and its rest\n\n| a |\n| b |");
}

#[test]
fn long_screens_are_read() {
    let mut screen = String::new();
    for n in 0..1000 {
        screen.push_str(&format!("• 줄 {} ----------------------------------------------------\n", n));
    }
    let after = format!("{}› ask\n\n• answer\n", screen);
    assert_eq!(lines(&after).len(), 1003);
    assert_eq!(
        extract_final_response(&current_turn_output(&screen, &after, "ask"), "ask"),
        "• answer",
    );
    assert_eq!(snapshot_delta(&screen, &after), "› ask\n\n• answer");
}
