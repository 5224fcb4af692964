use herdr::classify::is_grok_input_box_line;
use herdr::clock::strip_trailing_clock;
use herdr::echo::find_grok_prompt_offset;
use herdr::response::{codex_final_response, extract_final_response, grok_final_response};
use herdr::target::{is_herdr_model, is_valid_target, strip_herdr_prefix};
use herdr::turn::current_turn_output;

#[test]
fn recognizes_models_and_targets() {
    assert!(is_herdr_model(Some("herdr")));
    assert!(is_herdr_model(Some("herdr:worker_1")));
    assert!(!is_herdr_model(Some("codex")));
    assert_eq!(strip_herdr_prefix("herdr:worker"), Some("worker"));
    assert!(is_valid_target("worker-1"));
    assert!(!is_valid_target("Worker"));
    assert!(!is_valid_target("../worker"));
}

#[test]
fn extracts_wrapped_codex_long_prompt() {
    let after = [
        "› old prompt\n",
        "• old answer\n",
        "› 다른 설명 없이 아래 한 줄만 그대로 출력해: QA_LONG_LINE 시작 이 문장은 의도적으로 매우 길어서 터미널에서 여러 줄로 접힐 수 있지만 의미상으로는 하나의 문장이어야 한다.\n",
        "  중간에 빈 줄이나 목록을 넣지 말고 이 문장만 출력한다. QA_LONG_LINE 끝\n",
        "\n",
        "• QA_LONG_LINE 시작 이 문장은 의도적으로 매우 길어서 터미널에서 여러 줄로 접힐 수 있지만 의미상으로는 하나의 문장이어야 한다. 중간에 빈 줄이나 목록을 넣지 말고 이 문장만\n",
        "  출력한다. QA_LONG_LINE 끝\n",
        "\n",
        "› Run /review on my current changes\n",
    ].concat();
    let prompt = "다른 설명 없이 아래 한 줄만 그대로 출력해: QA_LONG_LINE 시작 이 문장은 의도적으로 매우 길어서 터미널에서 여러 줄로 접힐 수 있지만 의미상으로는 하나의 문장이어야 한다. 중간에 빈 줄이나 목록을 넣지 말고 이 문장만 출력한다. QA_LONG_LINE 끝";
    let extracted = extract_final_response(&current_turn_output("", &after, prompt), prompt);
    assert!(extracted.contains("QA_LONG_LINE 시작"), "{}", extracted);
    assert!(extracted.contains("QA_LONG_LINE 끝"), "{}", extracted);
    assert!(!extracted.contains("old answer"), "{}", extracted);
    assert!(!extracted.contains("Run /review"), "{}", extracted);
}

#[test]
fn extracts_wrapped_agy_long_prompt() {
    let after = [
        "> 헤르메스 에이전트에 대해서 궁금한 것이 있어\n",
        "  old body\n",
        "> 다른 설명 없이 아래 한 줄만 그대로 출력해: QA_LONG_LINE 시작 이 문장은 의도적으로 매우 길어서 터미널에서 여러 줄로 접힐 수 있지만 의미상으로는 하나의 문장이어야 한다.\n",
        "  중간에 빈 줄이나 목록을 넣지 말고 이 문장만 출력한다. QA_LONG_LINE 끝\n",
        "\n",
        "  QA_LONG_LINE 시작 이 문장은 의도적으로 매우 길어서 터미널에서 여러 줄로 접힐 수 있지만 의미상으로는 하나의 문장이어야 한다. 중간에 빈 줄이나 목록을 넣지 말고 이\n",
        "  문장만 출력한다. QA_LONG_LINE 끝\n",
        "────────────────────────────────────────────────────────────\n",
    ].concat();
    let prompt = "다른 설명 없이 아래 한 줄만 그대로 출력해: QA_LONG_LINE 시작 이 문장은 의도적으로 매우 길어서 터미널에서 여러 줄로 접힐 수 있지만 의미상으로는 하나의 문장이어야 한다. 중간에 빈 줄이나 목록을 넣지 말고 이 문장만 출력한다. QA_LONG_LINE 끝";
    let extracted = extract_final_response(&current_turn_output("", &after, prompt), prompt);
    assert!(extracted.contains("QA_LONG_LINE 시작"), "{}", extracted);
    assert!(!extracted.contains("old body"), "{}", extracted);
    assert!(!extracted.contains("헤르메스"), "{}", extracted);
}

#[test]
fn extracts_codex_bullet_answer_without_composer() {
    let before = "› old prompt\n\n• old answer\n";
    let after = [
        "› Reply with exactly CODEX_PARSE_OK on the first line, then a 2-row markdown table with columns A,B and rows 1,x and 2,y. No other text.\n",
        "\n",
        "• CODEX_PARSE_OK\n",
        "\n",
        "   A      B\n",
        "  ━━━━━  ━━━━━\n",
        "   1      x\n",
        "  ─────  ─────\n",
        "   2      y\n",
        "\n",
        "› Run /review on my current changes\n",
        "\n",
        "  gpt-5.6-luna max · ~/dev/md-rag-api\n",
    ].concat();
    let prompt = "Reply with exactly CODEX_PARSE_OK on the first line, then a 2-row markdown table with columns A,B and rows 1,x and 2,y. No other text.";
    let turn = current_turn_output(before, &after, prompt);
    let extracted = extract_final_response(&turn, prompt);
    assert!(extracted.starts_with("• CODEX_PARSE_OK") || extracted.starts_with("CODEX_PARSE_OK"), "{}", extracted);
    assert!(extracted.contains("1      x"), "{}", extracted);
    assert!(!extracted.contains("Run /review"), "{}", extracted);
    assert!(!extracted.contains("gpt-5.6-luna"), "{}", extracted);
    assert!(grok_final_response(&turn, prompt).is_none());
}

#[test]
fn extracts_codex_final_response() {
    let snapshot = "  상태를 확인하겠습니다.\n\n  - 첫 번째 항목\n  - 두 번째 항목";
    assert_eq!(
        codex_final_response(snapshot).as_deref(),
        Some("상태를 확인하겠습니다.\n\n- 첫 번째 항목\n- 두 번째 항목")
    );
}

const GROK_PROBE_PROMPT: &str =
    "Reply with exactly the token GROK_HERDR_PROBE_OK and nothing else.";

const GROK_PROBE_AFTER: &str = "\n  /tmp/grok-herdr-probe                                               14K / 500K\n\n\n     ❯ Reply with exactly the token GROK_HERDR_PROBE_OK and nothing    6:07 PM\n       else.\n\n\n     ◆ user_prompt_submit  [hooks: 2]\n     ◆ Thought for 0.0s\n\n     GROK_HERDR_PROBE_OK                                               6:07 PM\n\n     Worked for 2.4s                                          stop  [hooks: 2]\n\n\n\n\n\n\n\n\n\n\n\n\n\n\n\n\n  Help improve Grok                                           [Opt out] [Opt in]\n  Off by default. Opt-in to allow SpaceXAI to retain coding\n  data, e.g., prompts, traces, & metrics, for training and\n  debugging purposes. Change anytime via settings.\n  Read Terms and Privacy Policy.\n\n  ╭────────────────────────────────────────────────────────────────────────────╮\n  │ ❯                                                                          │\n  ╰───────────────────────────────────────── Grok 4.6 (high) · always-approve ─╯\n\n  Shift+Tab:mode  │  Ctrl+.:shortcuts\n";

const GROK_PROBE_BEFORE: &str = "\n  /tmp/grok-herdr-probe\n\n\n\n\n                                  ⠀⠀⠀⠀⠀⠀⣀⣀⡀⠀⠀⠀⢀⠄\n                New worktree                                 ctrl+w\n                Resume session                               ctrl+s\n\n  Help improve Grok                                           [Opt out] [Opt in]\n  Off by default. Opt-in to allow SpaceXAI to retain coding\n  data, e.g., prompts, traces, & metrics, for training and\n  debugging purposes. Change anytime via settings.\n  Read Terms and Privacy Policy.\n\n  ╭────────────────────────────────────────────────────────────────────────────╮\n  │ ❯                                                                          │\n  ╰───────────────────────────────────────── Grok 4.6 (high) · always-approve ─╯\n\n                                                      Grok Build  1.0.4 [stable]\n";

#[test]
fn strips_grok_clock_only_after_wide_padding() {
    assert_eq!(
        strip_trailing_clock("     GROK_HERDR_PROBE_OK                                               6:07 PM"),
        "     GROK_HERDR_PROBE_OK"
    );
    assert_eq!(
        strip_trailing_clock("meet at 6:07 PM"),
        "meet at 6:07 PM"
    );
}

#[test]
fn ignores_grok_input_box_when_finding_prompt() {
    assert!(is_grok_input_box_line(
        "  │ ❯                                                                          │"
    ));
    assert!(!is_grok_input_box_line(
        "     ❯ Reply with exactly the token GROK_HERDR_PROBE_OK and nothing    6:07 PM"
    ));
    let offset = find_grok_prompt_offset(GROK_PROBE_AFTER, GROK_PROBE_PROMPT)
        .expect("user prompt line");
    assert!(
        GROK_PROBE_AFTER[offset..].starts_with("     ❯ Reply with exactly"),
        "offset {} should start at the user prompt line",
        offset
    );
    assert!(
        !GROK_PROBE_AFTER[..offset].contains("❯ Reply"),
        "should pick the last user prompt, not a later input box"
    );
}

#[test]
fn extracts_grok_probe_without_chrome() {
    assert_eq!(
        grok_final_response(GROK_PROBE_AFTER, GROK_PROBE_PROMPT).as_deref(),
        Some("GROK_HERDR_PROBE_OK")
    );
    assert_eq!(
        grok_final_response(GROK_PROBE_AFTER, "").as_deref(),
        Some("GROK_HERDR_PROBE_OK")
    );
}

#[test]
fn extracts_grok_turn_from_before_after_snapshots() {
    let turn = current_turn_output(GROK_PROBE_BEFORE, GROK_PROBE_AFTER, GROK_PROBE_PROMPT);
    assert_eq!(
        extract_final_response(&turn, GROK_PROBE_PROMPT),
        "GROK_HERDR_PROBE_OK"
    );
    assert!(!extract_final_response(&turn, GROK_PROBE_PROMPT).contains("Help improve"));
    assert!(!extract_final_response(&turn, GROK_PROBE_PROMPT).contains("user_prompt_submit"));
}

#[test]
fn extracts_grok_multiline_answer_and_skips_tool_chrome() {
    let snapshot = [
        "     ❯ 현재 프로젝트 확인해봐                                          6:01 PM\n",
        "\n",
        "     ◆ Thought for 1.2s\n",
        "     ❙  ◈ Read 6 files  [hooks: 14]\n",
        "     ┃  ◆ Run Inspect running containers\n",
        "\n",
        "     이 저장소는 브라우저 Compose 프로젝트가 아닙니다.\n",
        "\n",
        "     남은 후속 작업\n",
        "\n",
        "     • P1 독립 외부 백업\n",
        "\n",
        "     Worked for 1m15s                                          stop  [hooks: 2]\n",
        "\n",
        "  Help improve Grok\n",
        "  ╭────────────────────────────────────────╮\n",
        "  │ ❯                                      │\n",
        "  ╰──────────── Grok 4.6 (high) · always-approve ─╯\n",
    ].concat();
    assert_eq!(
        grok_final_response(&snapshot, "현재 프로젝트 확인해봐").as_deref(),
        Some("이 저장소는 브라우저 Compose 프로젝트가 아닙니다.\n\n남은 후속 작업\n\n• P1 독립 외부 백업")
    );
}

#[test]
fn strips_grok_scrollbar_before_clock() {
    assert_eq!(
        strip_trailing_clock(
            "     ┌───────┬──────────┬───────────┐                                  6:38 PM   █"
        ),
        "     ┌───────┬──────────┬───────────┐"
    );
    assert!(!is_grok_input_box_line(
        "     │ 항목  │ 값       │ 비고      │                                            █"
    ));
    assert!(is_grok_input_box_line(
        "  │ ❯                                                                          │"
    ));
}

#[test]
fn extracts_grok_box_table_without_stopping_at_rows() {
    let snapshot = [
        "     ❯ 마크다운 테이블 보내봐                                          6:38 PM\n",
        "\n",
        "     ◆ user_prompt_submit  [hooks: 2]                                            █\n",
        "     ◆ Thought for 0.0s                                                          █\n",
        "                                                                                 █\n",
        "     ┌───────┬──────────┬───────────┐                                  6:38 PM   █\n",
        "     │ 항목  │ 값       │ 비고      │                                            █\n",
        "     ├───────┼──────────┼───────────┤                                            █\n",
        "     │ 상태  │ 정상     │ 확인 완료 │                                            █\n",
        "     └───────┴──────────┴───────────┘\n",
        "                                         ▼\n",
        "  Help improve Grok\n",
        "  ╭────────────────────────────────────────╮\n",
        "  │ ❯                                      │\n",
        "  ╰──────────── Grok 4.6 (high) · always-approve ─╯\n",
    ].concat();
    let extracted =
        grok_final_response(&snapshot, "마크다운 테이블 보내봐").expect("grok table");
    assert!(extracted.starts_with("┌───────┬──────────┬───────────┐"));
    assert!(extracted.contains("│ 항목  │ 값       │ 비고"));
    assert!(extracted.contains("│ 상태  │ 정상     │ 확인 완료"));
    assert!(extracted.ends_with("└───────┴──────────┴───────────┘"));
    assert!(!extracted.contains('█'));
    assert!(!extracted.contains("6:38 PM"));
    assert!(!extracted.contains("Help improve"));
}

#[test]
fn prefers_real_turn_over_sticky_prompt_header() {
    let snapshot = [
        "     ❯ 그럼이것을 200명에게 서비스 한다고 하면 서버 사양은?             7:37 PM\n",
        "     ◆ user_prompt_submit  [hooks: 2]\n",
        "     200명은 현재 설계 범위 밖이라 나눠 계산하겠습니다.\n",
        "     ┌────────────────────────────────────────┐\n",
        "     │   1) 지금처럼 200명 브라우저를 항상 켜 둠 │\n",
        "     │   2) 계정 200명, 동시 20명               │\n",
        "     │   • 한 대로 밀려면 RAM 256GiB            │\n",
        "     ~/hermes-agent                          122K / 500K │ 3/3 ✓\n",
        "     ❯ 그럼이것을 200명에게 서비스 한다고 하면 서버 사양은?             7:37 PM\n",
        "                                                                                     ▲\n",
        "     │   3) 브라우저 없이 Agent만 200명         │\n",
        "     └────────────────────────────────────────┘\n",
        "     Worked for 1m5s                                          stop  [hooks: 2]\n",
    ].concat();
    let prompt = "그럼이것을 200명에게 서비스 한다고 하면 서버 사양은?";
    let extracted = grok_final_response(&snapshot, prompt).expect("sticky header");
    assert!(extracted.contains("200명은 현재 설계 범위 밖"), "{}", extracted);
    assert!(extracted.contains("1) 지금처럼 200명"), "{}", extracted);
    assert!(extracted.contains("한 대로 밀려면"), "{}", extracted);
    assert!(extracted.contains("3) 브라우저 없이"), "{}", extracted);
    assert!(!extracted.contains('▲'), "{}", extracted);
}

#[test]
fn consumes_mid_word_wrapped_grok_prompt() {
    let snapshot = [
        "     ❯ 다른 설명 없이 GitHub 파이프 마크다운 테이블만 출력. 열은 이    6:43 PM\n",
        "       름,수량,비고. 행은 사과 2 빨강, 배 1 노랑.\n",
        "\n",
        "     ◆ Thought for 0.0s\n",
        "     ┌──────┬──────┬──────┐                                            6:43 PM\n",
        "     │ 이름 │ 수량 │ 비고 │\n",
        "     │ 사과 │ 2    │ 빨강 │\n",
        "     └──────┴──────┴──────┘\n",
        "     Worked for 2.0s                                          stop  [hooks: 2]\n",
    ].concat();
    let prompt = "다른 설명 없이 GitHub 파이프 마크다운 테이블만 출력. 열은 이름,수량,비고. 행은 사과 2 빨강, 배 1 노랑.";
    let extracted = grok_final_response(&snapshot, prompt).expect("wrapped prompt");
    assert!(
        extracted.starts_with("┌──────┬──────┬──────┐"),
        "{}",
        extracted
    );
    assert!(!extracted.contains("름,수량"));
    assert!(extracted.contains("│ 사과 │ 2    │ 빨강"));
}

#[test]
fn consumes_truncated_grok_prompt_echo() {
    let snapshot = [
        "     ❯ 다른 설명 없이 아래 10줄을 그대로 출력해:                       6:43 PM\n",
        "       L01 첫번째\n",
        "       L02 두번째 …\n",
        "\n",
        "     ◆ Thought for 0.0s\n",
        "     L01 첫번째 L02 두번째 L03 세번째 L04 네번째 L05 다섯번째 L06 여   6:43 PM\n",
        "     섯번째 L07 일곱번째 L08 여덟번째 L09 아홉번째 L10 열번째\n",
        "     Worked for 2.2s                                          stop  [hooks: 2]\n",
    ].concat();
    let prompt = "다른 설명 없이 아래 10줄을 그대로 출력해:\nL01 첫번째\nL02 두번째\nL03 세번째";
    let extracted = grok_final_response(&snapshot, prompt).expect("truncated echo");
    assert!(
        extracted.starts_with("L01 첫번째 L02 두번째"),
        "{}",
        extracted
    );
    assert!(!extracted.contains('…'));
}

#[test]
fn keeps_grok_wrapped_paragraphs_without_scrollbar() {
    let snapshot = [
        "     ❯ 10줄 문구 보내봐                                                6:37 PM\n",
        "\n",
        "     한 줄씩 내려가며 읽는 짧은 문구입니다.\n",
        "\n",
        "     지금 이 문장은 두 번째 줄입니다. 세 번째는 조금 더 길게 이어집              █\n",
        "     니다. 네 번째에서 호흡을 한 번 고르고, 다섯 번째는 다시 짧게.               █\n",
        "     Worked for 6.0s                                          stop  [hooks: 2]\n",
        "  Help improve Grok\n",
    ].concat();
    let extracted = grok_final_response(&snapshot, "10줄 문구 보내봐").expect("wrapped");
    assert_eq!(
        extracted,
        "한 줄씩 내려가며 읽는 짧은 문구입니다.\n\n지금 이 문장은 두 번째 줄입니다. 세 번째는 조금 더 길게 이어집\n니다. 네 번째에서 호흡을 한 번 고르고, 다섯 번째는 다시 짧게."
    );
    assert!(!extracted.contains('█'));
}

#[test]
fn grok_extractor_does_not_claim_codex_output() {
    let snapshot = "  상태를 확인하겠습니다.\n\n  - 첫 번째 항목";
    assert_eq!(grok_final_response(&snapshot, "상태를 확인").as_deref(), None);
    assert_eq!(
        extract_final_response(snapshot, "상태를 확인"),
        "상태를 확인하겠습니다.\n\n- 첫 번째 항목"
    );
}
