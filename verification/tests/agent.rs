use herdr::active::{is_cokacdir_prompt_active, ActivePromptGuard, ActivePrompts};
use herdr::command::{agent_get, agent_prompt, agent_read, interrupt_agent, Invocation};
use herdr::json::{read_reply, Reply};
use herdr::locate::{herdr_path, is_herdr_available, PathStep};
use herdr::preview::{preview, truncate_chars};
use herdr::process::{failure_text, output_error, read_screen_text, CommandOutput, Outcome};
use herdr::query::{
    agent_status, check_output, completion_preview, read_agent_lines, read_screen, Progress, Step,
};
use herdr::run::{hold_prompt, next_progress, TurnEvent};
use herdr::session::{answer_step, execute_command_streaming, TurnProgress, TurnRequest, TurnStep};
use herdr::settings::{read_lines, screen_lines, timeout_ms};
use herdr::status::{parse_agent_status, prompt_refusal, refusal_from_reply, status_from_reply};
use herdr::target::{is_valid_target, strip_herdr_prefix, target_from_model};

fn succeeded(stdout: &str) -> Outcome {
    Outcome::Finished(CommandOutput {
        success: true,
        code: Some(0),
        stdout: stdout.as_bytes().to_vec(),
        stderr: vec![],
    })
}

fn failed(stderr: &str) -> Outcome {
    Outcome::Finished(CommandOutput {
        success: false,
        code: Some(2),
        stdout: vec![],
        stderr: stderr.as_bytes().to_vec(),
    })
}

fn words(call: &Invocation) -> String {
    format!("{} {}", call.bin, call.args.join(" "))
}

#[test]
fn targets_are_chosen() {
    assert_eq!(target_from_model(Some("herdr:worker"), Some("other")), Ok("worker".to_string()));
    assert_eq!(target_from_model(Some("herdr"), Some("other")), Ok("other".to_string()));
    assert_eq!(target_from_model(None, Some("other")), Ok("other".to_string()));
    assert_eq!(target_from_model(Some("herdr:"), Some("other")), Ok("other".to_string()));
}

#[test]
fn targets_are_refused() {
    assert_eq!(
        target_from_model(Some("herdr:Worker"), Some("other")),
        Err("Invalid Herdr agent name. Use 1-32 lowercase letters, digits, '-' or '_'.".to_string()),
    );
    assert_eq!(
        target_from_model(Some("codex"), Some("../x")),
        Err("COKAC_HERDR_AGENT contains an invalid Herdr agent name.".to_string()),
    );
    assert_eq!(
        target_from_model(Some("herdr"), None),
        Err(
            "Herdr agent is not configured. Use /model herdr:<agent-name> or set COKAC_HERDR_AGENT."
                .to_string(),
        ),
    );
    assert!(is_valid_target(&"a".repeat(32)));
    assert!(!is_valid_target(&"a".repeat(33)));
    assert!(!is_valid_target(""));
    assert!(!is_valid_target("1a"));
    assert!(!is_valid_target("aé"));
    assert!(is_valid_target("a-1_b"));
    assert_eq!(strip_herdr_prefix("herdr:"), None);
    assert_eq!(strip_herdr_prefix("codex"), None);
}

#[test]
fn settings_are_read() {
    assert_eq!(timeout_ms(None), 1_800_000);
    assert_eq!(timeout_ms(Some("999")), 1_800_000);
    assert_eq!(timeout_ms(Some("1000")), 1000);
    assert_eq!(timeout_ms(Some("+2000")), 2000);
    assert_eq!(timeout_ms(Some(" 2000")), 1_800_000);
    assert_eq!(timeout_ms(Some("18446744073709551615")), u64::MAX);
    assert_eq!(timeout_ms(Some("18446744073709551616")), 1_800_000);
    assert_eq!(read_lines(None), 1000);
    assert_eq!(read_lines(Some("0")), 1000);
    assert_eq!(read_lines(Some("1")), 1);
    assert_eq!(read_lines(Some("4294967296")), 1000);
    assert_eq!(screen_lines(Some("x")), 120);
    assert_eq!(screen_lines(Some("80")), 80);
}

#[test]
fn prompts_are_counted() {
    let mut prompts = ActivePrompts::new();
    assert!(!is_cokacdir_prompt_active(&prompts, "a"));
    let first = ActivePromptGuard::new(&mut prompts, "a");
    let second = ActivePromptGuard::new(&mut prompts, "a");
    let other = ActivePromptGuard::new(&mut prompts, "b");
    assert_eq!(prompts.count("a"), 2);
    assert_eq!(prompts.count("b"), 1);
    first.release(&mut prompts);
    assert!(is_cokacdir_prompt_active(&prompts, "a"));
    second.release(&mut prompts);
    assert!(!is_cokacdir_prompt_active(&prompts, "a"));
    assert!(is_cokacdir_prompt_active(&prompts, "b"));
    other.release(&mut prompts);
    assert_eq!(prompts.count("b"), 0);
}

#[test]
fn commands_are_written() {
    assert_eq!(words(&agent_get("/bin/herdr", "a")), "/bin/herdr agent get a");
    assert_eq!(
        words(&agent_read("h", "a", "visible", 7)),
        "h agent read a --source visible --lines 7 --format text",
    );
    assert_eq!(
        words(&agent_prompt("h", "a", "say hi", 1000)),
        "h agent prompt a say hi --wait --until idle --until done --until blocked --timeout 1000",
    );
    assert_eq!(agent_prompt("h", "a", "say hi", 1000).args[3], "say hi");
    assert_eq!(words(&interrupt_agent("h", "a")), "h agent send-keys a ctrl+c");
}

#[test]
fn failures_are_told() {
    assert_eq!(failure_text("agent get", Some(1), " bad \n", "out"), "Herdr agent get failed: bad");
    assert_eq!(failure_text("agent get", Some(1), " \n", " out "), "Herdr agent get failed: out");
    assert_eq!(
        failure_text("agent get", Some(-7), "", ""),
        "Herdr agent get failed with exit code -7.",
    );
    assert_eq!(
        failure_text("agent get", None, "", ""),
        "Herdr agent get failed with exit code unknown.",
    );
}

#[test]
fn invalid_bytes_are_replaced() {
    let output = CommandOutput {
        success: false,
        code: Some(1),
        stdout: vec![],
        stderr: vec![b'a', 0xff, b'b', 0xe2, 0x9d, b' '],
    };
    assert_eq!(output_error("agent read", &output), "Herdr agent read failed: a\u{fffd}b\u{fffd}");
    assert_eq!(read_screen_text(b"a\r\nb\r\xff"), "a\nb\u{fffd}");
    assert_eq!(read_screen_text("한\r글".as_bytes()), "한글");
}

#[test]
fn outcomes_are_checked() {
    assert!(check_output(&succeeded("x"), "agent get", "agent get").is_ok());
    assert_eq!(
        check_output(&failed("no"), "agent read", "screen read").err(),
        Some("Herdr screen read failed: no".to_string()),
    );
    assert_eq!(
        check_output(&Outcome::NotRun("gone".to_string()), "agent read", "screen read").err(),
        Some("Failed to run Herdr agent read: gone".to_string()),
    );
    assert_eq!(read_agent_lines(&succeeded("a\r\nb")), Ok("a\nb".to_string()));
    assert_eq!(
        read_agent_lines(&failed("no")),
        Err("Herdr agent read failed: no".to_string()),
    );
}

#[test]
fn replies_are_read() {
    let reply = read_reply(br#"{"result":{"agent":{"agent_status":"idle"}}, "b":1,"a":[null, -2.5]}"#)
        .unwrap();
    assert!(!reply.has_error);
    assert_eq!(reply.agent_status.as_deref(), Some("idle"));
    assert_eq!(reply.text, r#"{"a":[null,-2.5],"b":1,"result":{"agent":{"agent_status":"idle"}}}"#);
    let error = read_reply(br#"{"error":null}"#).unwrap();
    assert!(error.has_error);
    assert_eq!(error.agent_status, None);
    assert!(!read_reply(br#"["error"]"#).unwrap().has_error);
    assert_eq!(read_reply(br#"{"result":{"agent":{"agent_status":3}}}"#).unwrap().agent_status, None);
    assert_eq!(read_reply(br#"{"result":[{"agent_status":"idle"}]}"#).unwrap().agent_status, None);
    assert_eq!(
        read_reply(b"{").err(),
        Some("EOF while parsing an object at line 1 column 1".to_string()),
    );
}

#[test]
fn statuses_are_parsed() {
    assert_eq!(
        parse_agent_status(br#"{"result":{"agent":{"agent_status":"busy"}}}"#),
        Ok("busy".to_string()),
    );
    assert_eq!(
        parse_agent_status(br#"{"error": {"code": 1}}"#),
        Err(r#"Herdr agent get failed: {"error":{"code":1}}"#.to_string()),
    );
    assert_eq!(
        parse_agent_status(b"{}"),
        Err("Herdr agent status is missing from the response.".to_string()),
    );
    assert_eq!(
        parse_agent_status(b""),
        Err(
            "Herdr returned invalid agent JSON: EOF while parsing a value at line 1 column 0"
                .to_string(),
        ),
    );
    let reply = Reply { has_error: true, text: "x".to_string(), agent_status: None };
    assert_eq!(status_from_reply(&reply), Err("Herdr agent get failed: x".to_string()));
    assert_eq!(refusal_from_reply(&reply), Some("Herdr agent prompt failed: x".to_string()));
    assert_eq!(prompt_refusal(b"{}"), None);
    assert_eq!(
        prompt_refusal(br#"{"error":"no"}"#),
        Some(r#"Herdr agent prompt failed: {"error":"no"}"#.to_string()),
    );
    assert_eq!(
        prompt_refusal(b"x"),
        Some(
            "Herdr returned invalid prompt JSON: expected value at line 1 column 1".to_string(),
        ),
    );
}

#[test]
fn texts_are_truncated() {
    assert_eq!(truncate_chars("abc", 3), "abc");
    assert_eq!(truncate_chars("한글날", 2), "한글\n…");
    assert_eq!(truncate_chars("a", 0), "\n…");
    assert_eq!(truncate_chars("", 0), "");
}

#[test]
fn path_is_looked_for() {
    let ask = |answers: &[bool], which: Option<&Outcome>| {
        match herdr_path(Some("/opt/herdr"), Some("/home/me"), answers, which) {
            PathStep::CheckFile(path) => format!("check {}", path),
            PathStep::RunWhich => "which".to_string(),
            PathStep::Done(Some(path)) => format!("found {}", path),
            PathStep::Done(None) => "nowhere".to_string(),
        }
    };
    assert_eq!(ask(&[], None), "check /opt/herdr");
    assert_eq!(ask(&[true], None), "found /opt/herdr");
    assert_eq!(ask(&[false], None), "check /home/me/.local/bin/herdr");
    assert_eq!(ask(&[false, false], None), "check /usr/local/bin/herdr");
    assert_eq!(ask(&[false, false, false], None), "check /usr/bin/herdr");
    assert_eq!(ask(&[false, false, false, false], None), "check /bin/herdr");
    let none = [false; 5];
    assert_eq!(ask(&none, None), "which");
    let found = succeeded(" /x/herdr\n");
    assert_eq!(ask(&none, Some(&found)), "check /x/herdr");
    assert_eq!(ask(&[false, false, false, false, false, true], Some(&found)), "found /x/herdr");
    assert_eq!(ask(&[false; 6], Some(&found)), "nowhere");
    assert_eq!(ask(&none, Some(&succeeded(" \n"))), "nowhere");
    assert_eq!(ask(&none, Some(&failed("no"))), "nowhere");
    assert_eq!(ask(&none, Some(&Outcome::NotRun("gone".to_string()))), "nowhere");
}

#[test]
fn path_without_settings_is_looked_for() {
    assert!(matches!(
        herdr_path(None, None, &[], None),
        PathStep::CheckFile(path) if path == "/usr/local/bin/herdr"
    ));
    assert!(matches!(
        herdr_path(Some(""), None, &[], None),
        PathStep::CheckFile(path) if path == "/usr/local/bin/herdr"
    ));
    assert_eq!(is_herdr_available(None, None, &[], None), None);
    assert_eq!(is_herdr_available(None, None, &[false, true], None), Some(true));
    assert_eq!(is_herdr_available(None, None, &[false; 3], None), None);
    assert_eq!(is_herdr_available(None, None, &[false; 3], Some(&failed(""))), Some(false));
}

#[test]
fn status_is_asked_for() {
    assert!(matches!(agent_status("a", &Progress::Start), Step::Locate));
    match agent_status("a", &Progress::Located(Some("h".to_string()))) {
        Step::Run(call) => assert_eq!(words(&call), "h agent get a"),
        _ => panic!("no command"),
    }
    let told = |progress: Progress, target: &str| match agent_status(target, &progress) {
        Step::Done(result) => result,
        _ => panic!("not done"),
    };
    assert_eq!(told(Progress::Start, "A"), Err("Invalid Herdr agent name.".to_string()));
    assert_eq!(
        told(Progress::Located(None), "a"),
        Err("Herdr provider is not installed.".to_string()),
    );
    assert_eq!(
        told(Progress::Ran(Outcome::NotRun("gone".to_string())), "a"),
        Err("Failed to run Herdr agent get: gone".to_string()),
    );
    assert_eq!(
        told(Progress::Ran(failed("no")), "a"),
        Err("Herdr agent get failed: no".to_string()),
    );
    assert_eq!(
        told(Progress::Ran(succeeded(r#"{"result":{"agent":{"agent_status":"idle"}}}"#)), "a"),
        Ok("idle".to_string()),
    );
}

#[test]
fn preview_is_asked_for() {
    match completion_preview("a", &Progress::Located(Some("h".to_string()))) {
        Step::Run(call) => assert_eq!(
            words(&call),
            "h agent read a --source recent-unwrapped --lines 120 --format text",
        ),
        _ => panic!("no command"),
    }
    match completion_preview("a", &Progress::Ran(succeeded("one\r\n\ntwo\n"))) {
        Step::Done(Ok(text)) => assert_eq!(text, preview("one\n\ntwo\n")),
        _ => panic!("not done"),
    }
    match completion_preview("A", &Progress::Start) {
        Step::Done(Err(message)) => assert_eq!(message, "Invalid Herdr agent name."),
        _ => panic!("not refused"),
    }
    match completion_preview("a", &Progress::Located(None)) {
        Step::Done(Err(message)) => assert_eq!(message, "Herdr provider is not installed."),
        _ => panic!("not refused"),
    }
    assert!(preview(&"가\n".repeat(5000)).chars().count() <= 1202);
}

#[test]
fn screen_is_asked_for() {
    match read_screen(Some("herdr:a"), None, Some("9"), &Progress::Located(Some("h".to_string()))) {
        Step::Run(call) => {
            assert_eq!(words(&call), "h agent read a --source visible --lines 9 --format text")
        }
        _ => panic!("no command"),
    }
    match read_screen(None, Some("b"), None, &Progress::Ran(succeeded("  shown\r\n \n"))) {
        Step::Done(Ok((target, shown))) => {
            assert_eq!(target, "b");
            assert_eq!(shown, "  shown");
        }
        _ => panic!("not done"),
    }
    match read_screen(None, Some("b"), None, &Progress::Ran(failed("no"))) {
        Step::Done(Err(message)) => assert_eq!(message, "Herdr screen read failed: no"),
        _ => panic!("not refused"),
    }
    match read_screen(None, Some("B"), None, &Progress::Start) {
        Step::Done(Err(message)) => {
            assert_eq!(message, "COKAC_HERDR_AGENT contains an invalid Herdr agent name.")
        }
        _ => panic!("not refused"),
    }
    assert!(matches!(read_screen(None, Some("b"), None, &Progress::Start), Step::Locate));
}

fn request() -> TurnRequest<'static> {
    TurnRequest {
        prompt: "ask",
        model: Some("herdr:a"),
        configured: None,
        lines: Some("50"),
        timeout: Some("5000"),
    }
}

fn next(progress: TurnProgress) -> String {
    shown(execute_command_streaming(&request(), &progress))
}

fn shown(step: TurnStep) -> String {
    match step {
        TurnStep::Locate => "locate".to_string(),
        TurnStep::Begin { target, call } => format!("begin {}: {}", target, words(&call)),
        TurnStep::Prompt { call, before } => format!("prompt after {:?}: {}", before, words(&call)),
        TurnStep::Wait { kill } => format!("wait, kill {}", kill),
        TurnStep::Interrupt(call) => format!("interrupt: {}", words(&call)),
        TurnStep::ReadAgain(call) => format!("read: {}", words(&call)),
        TurnStep::Publish(text) => format!("publish {:?}", text),
        TurnStep::Done(Ok(())) => "done".to_string(),
        TurnStep::Done(Err(message)) => format!("failed: {}", message),
    }
}

fn bin() -> String {
    "h".to_string()
}

fn ended(outcome: Outcome, cancelled: bool) -> TurnProgress {
    TurnProgress::Ended { bin: bin(), before: "old\n".to_string(), outcome, cancelled }
}

#[test]
fn turn_runs_through() {
    let read = "h agent read a --source recent-unwrapped --lines 50 --format text";
    assert_eq!(next(TurnProgress::Start), "locate");
    assert_eq!(next(TurnProgress::Located(Some(bin()))), format!("begin a: {}", read));
    assert_eq!(
        next(TurnProgress::ReadBefore { bin: bin(), outcome: succeeded("old\r\n") }),
        "prompt after \"old\\n\": h agent prompt a ask --wait --until idle --until done --until blocked \
         --timeout 5000",
    );
    let started = TurnProgress::Started { bin: bin(), before: String::new(), started: Ok(false) };
    assert_eq!(next(started), "wait, kill false");
    assert_eq!(next(ended(succeeded("{}"), false)), format!("read: {}", read));
    let after = succeeded("old\r\n› ask\r\n\r\n• The answer\r\n\r\n› next\r\n");
    assert_eq!(
        next(TurnProgress::ReadAfter { before: "old\n".to_string(), outcome: after }),
        "publish \"• The answer\"",
    );
    assert_eq!(next(TurnProgress::Published(Ok(()))), "done");
}

#[test]
fn cancelled_turn_is_interrupted() {
    let started = TurnProgress::Started { bin: bin(), before: String::new(), started: Ok(true) };
    assert_eq!(next(started), "wait, kill true");
    assert_eq!(next(ended(failed("killed"), true)), "interrupt: h agent send-keys a ctrl+c");
    assert_eq!(next(ended(succeeded("{}"), true)), "interrupt: h agent send-keys a ctrl+c");
    assert_eq!(next(TurnProgress::Interrupted), "done");
}

#[test]
fn turn_fails() {
    assert_eq!(
        next(TurnProgress::Located(None)),
        "failed: Herdr CLI not found. Set COKAC_HERDR_PATH or install herdr.",
    );
    assert_eq!(
        next(TurnProgress::ReadBefore { bin: bin(), outcome: failed("no") }),
        "failed: Herdr agent read failed: no",
    );
    let started = TurnProgress::Started {
        bin: bin(),
        before: String::new(),
        started: Err("gone".to_string()),
    };
    assert_eq!(next(started), "failed: Failed to run Herdr agent prompt: gone");
    assert_eq!(
        next(ended(Outcome::NotRun("lost".to_string()), true)),
        "failed: Failed waiting for Herdr agent: lost",
    );
    assert_eq!(next(ended(failed("no"), false)), "failed: Herdr agent prompt failed: no");
    assert_eq!(
        next(ended(succeeded("{\"error\":1}"), false)),
        "failed: Herdr agent prompt failed: {\"error\":1}",
    );
    assert_eq!(
        next(ended(succeeded("oops"), false)),
        "failed: Herdr returned invalid prompt JSON: expected value at line 1 column 1",
    );
    assert_eq!(
        next(TurnProgress::ReadAfter { before: String::new(), outcome: failed("no") }),
        "failed: Herdr agent read failed: no",
    );
    assert_eq!(
        next(TurnProgress::ReadAfter { before: "x".to_string(), outcome: succeeded("x\n") }),
        "failed: Herdr agent completed without readable terminal output.",
    );
    assert_eq!(
        next(TurnProgress::Published(Err("closed".to_string()))),
        "failed: Failed to publish Herdr response: closed",
    );
}

#[test]
fn turn_without_an_agent_fails() {
    let request = TurnRequest { model: None, ..request() };
    assert!(matches!(execute_command_streaming(&request, &TurnProgress::Start), TurnStep::Locate));
    assert_eq!(
        shown(execute_command_streaming(&request, &TurnProgress::Located(None))),
        "failed: Herdr CLI not found. Set COKAC_HERDR_PATH or install herdr.",
    );
    assert_eq!(
        shown(execute_command_streaming(&request, &TurnProgress::Located(Some(bin())))),
        "failed: Herdr agent is not configured. Use /model herdr:<agent-name> or set COKAC_HERDR_AGENT.",
    );
}

#[test]
fn answers_become_steps() {
    assert_eq!(shown(answer_step("x\n", "x\ny\n", "ask")), "publish \"y\"");
    assert_eq!(
        shown(answer_step("x\n", "x\n", "ask")),
        "failed: Herdr agent completed without readable terminal output.",
    );
}

#[test]
fn previews_are_made() {
    assert_eq!(preview("❯ ask\nyes\n"), "yes");
    assert_eq!(preview("• one\n  two\n"), "• one\ntwo");
    assert_eq!(preview("plain\nwords\n"), "plain\nwords");
    let mut numbers: Vec<String> = Vec::new();
    for n in 0..40 {
        numbers.push(n.to_string());
    }
    assert_eq!(preview(&numbers.join("\n")), numbers[10..].join("\n"));
    assert_eq!(preview(&"x".repeat(1201)), format!("{}\n…", "x".repeat(1200)));
}

/// Runs a turn with the given events, and tells after each step that was begun how many prompts are
/// counted for the agent and for another one, and which step it was.
fn counted(prompts: &mut ActivePrompts, request: &TurnRequest<'_>, events: Vec<TurnEvent>) -> Vec<String> {
    let mut told: Vec<String> = Vec::new();
    let mut held = None;
    let mut progress = TurnProgress::Start;
    let mut events = events.into_iter();
    loop {
        let step = execute_command_streaming(request, &progress);
        held = hold_prompt(prompts, held, &step);
        let name = match &step {
            TurnStep::Locate => "locate",
            TurnStep::Begin { .. } => "begin",
            TurnStep::Prompt { .. } => "prompt",
            TurnStep::Wait { .. } => "wait",
            TurnStep::Interrupt(_) => "interrupt",
            TurnStep::ReadAgain(_) => "read",
            TurnStep::Publish(_) => "publish",
            TurnStep::Done(Ok(())) => "done",
            TurnStep::Done(Err(_)) => "failed",
        };
        told.push(format!("{} {}/{}", name, prompts.count("a"), prompts.count("b")));
        if let TurnStep::Done(_) = step {
            assert!(held.is_none());
            return told;
        }
        progress = next_progress(progress, step, events.next().unwrap()).unwrap();
    }
}

fn until_ended(outcome: Outcome, cancelled: bool) -> Vec<TurnEvent> {
    vec![
        TurnEvent::Located(Some(bin())),
        TurnEvent::Read(succeeded("old\n")),
        TurnEvent::Started(Ok(cancelled)),
        TurnEvent::Ended { outcome, cancelled },
    ]
}

#[test]
fn turn_counts_one_prompt() {
    let mut prompts = ActivePrompts::new();
    let mine = ActivePromptGuard::new(&mut prompts, "a");
    let other = ActivePromptGuard::new(&mut prompts, "b");

    let mut events = until_ended(succeeded("{}"), false);
    events.push(TurnEvent::Read(succeeded("old\n› ask\n\n• yes\n")));
    events.push(TurnEvent::Published(Ok(())));
    assert_eq!(
        counted(&mut prompts, &request(), events),
        ["locate 1/1", "begin 2/1", "prompt 2/1", "wait 2/1", "read 2/1", "publish 2/1", "done 1/1"],
    );

    let mut events = until_ended(failed("killed"), true);
    events.push(TurnEvent::Interrupted);
    assert_eq!(
        counted(&mut prompts, &request(), events),
        ["locate 1/1", "begin 2/1", "prompt 2/1", "wait 2/1", "interrupt 2/1", "done 1/1"],
    );

    assert_eq!(
        counted(&mut prompts, &request(), until_ended(failed("no"), false)),
        ["locate 1/1", "begin 2/1", "prompt 2/1", "wait 2/1", "failed 1/1"],
    );
    let events = vec![TurnEvent::Located(Some(bin())), TurnEvent::Read(failed("no"))];
    assert_eq!(
        counted(&mut prompts, &request(), events),
        ["locate 1/1", "begin 2/1", "failed 1/1"],
    );
    let events = vec![TurnEvent::Located(None)];
    assert_eq!(counted(&mut prompts, &request(), events), ["locate 1/1", "failed 1/1"]);
    let nobody = TurnRequest { model: None, ..request() };
    let events = vec![TurnEvent::Located(Some(bin()))];
    assert_eq!(counted(&mut prompts, &nobody, events), ["locate 1/1", "failed 1/1"]);

    mine.release(&mut prompts);
    other.release(&mut prompts);
    assert_eq!(prompts.count("a") + prompts.count("b"), 0);
}

#[test]
fn turn_keeps_what_it_found() {
    let mut progress = TurnProgress::Start;
    for event in until_ended(succeeded("{}"), false) {
        let step = execute_command_streaming(&request(), &progress);
        progress = next_progress(progress, step, event).unwrap();
    }
    match &progress {
        TurnProgress::Ended { bin, before, cancelled, .. } => {
            assert_eq!(bin, "h");
            assert_eq!(before, "old\n");
            assert!(!cancelled);
        }
        _ => panic!("not ended"),
    }
    let step = execute_command_streaming(&request(), &progress);
    match next_progress(progress, step, TurnEvent::Read(succeeded("new"))) {
        Some(TurnProgress::ReadAfter { before, .. }) => assert_eq!(before, "old\n"),
        _ => panic!("not read"),
    }
}

#[test]
fn events_answer_their_steps() {
    assert!(next_progress(TurnProgress::Start, TurnStep::Locate, TurnEvent::Interrupted).is_none());
    assert!(next_progress(
        TurnProgress::Interrupted,
        TurnStep::Done(Ok(())),
        TurnEvent::Interrupted,
    )
    .is_none());
    assert!(matches!(
        next_progress(TurnProgress::Start, TurnStep::Locate, TurnEvent::Located(None)),
        Some(TurnProgress::Located(None))
    ));
}

#[test]
fn checked_output_is_the_whole_output() {
    let outcome = Outcome::Finished(CommandOutput {
        success: true,
        code: None,
        stdout: b"out".to_vec(),
        stderr: b"err".to_vec(),
    });
    let output = check_output(&outcome, "agent get", "agent get").unwrap();
    assert_eq!(output.stdout, b"out");
    assert_eq!(output.stderr, b"err");
    assert_eq!(output.code, None);
}

#[test]
fn agent_is_active_while_a_guard_lives() {
    let mut prompts = ActivePrompts::new();
    let mut live: Vec<ActivePromptGuard> = Vec::new();
    for round in 0..20 {
        if round % 5 < 3 {
            live.push(ActivePromptGuard::new(&mut prompts, "a"));
        } else if let Some(guard) = live.pop() {
            guard.release(&mut prompts);
        }
        assert_eq!(prompts.count("a"), live.len());
        assert_eq!(is_cokacdir_prompt_active(&prompts, "a"), !live.is_empty());
    }
    for guard in live {
        guard.release(&mut prompts);
    }
    assert!(!is_cokacdir_prompt_active(&prompts, "a"));
}
