use difftest::diff::make_diff;
use difftest::report::{
    all_passed, header_lines, result_lines, running_line, summary_lines, tally, test_cases, Tally,
};
use difftest::runner::{
    compare_outputs, failure_result, input_label, invocation, parse_program, poll_action,
    timeout_message, FailureStage, InputSource, PollAction, ProgramOutput, RunResult,
};
use difftest::words::{program_words, shell_words};

fn strs(v: &[&str]) -> Vec<String> {
    v.iter().map(|s| s.to_string()).collect()
}

fn out(stdout: &str, stderr: &str, code: i32) -> ProgramOutput {
    ProgramOutput {
        stdout: stdout.as_bytes().to_vec(),
        stderr: stderr.as_bytes().to_vec(),
        exit_code: code,
    }
}

#[test]
fn shell_words_splits_on_spaces() {
    assert_eq!(shell_words("hello world"), strs(&["hello", "world"]));
    assert_eq!(shell_words("  a   b  "), strs(&["a", "b"]));
}

#[test]
fn shell_words_groups_quotes() {
    assert_eq!(shell_words("\"hello world\" x"), strs(&["hello world", "x"]));
    assert_eq!(shell_words("'a b'c"), strs(&["a bc"]));
    assert_eq!(shell_words("say \"it's\""), strs(&["say", "it's"]));
    assert_eq!(shell_words("\"unclosed quote"), strs(&["unclosed quote"]));
}

#[test]
fn shell_words_drops_empty_quoted_words() {
    assert_eq!(shell_words("a \"\" b"), strs(&["a", "b"]));
}

#[test]
fn shell_words_empty_and_blank() {
    assert_eq!(shell_words(""), Vec::<String>::new());
    assert_eq!(shell_words("   \t\n"), Vec::<String>::new());
}

#[test]
fn shell_words_trims_but_splits_only_on_space() {
    assert_eq!(shell_words("\ta\tb \n"), strs(&["a\tb"]));
}

#[test]
fn program_words_split_at_any_whitespace() {
    assert_eq!(program_words(" a\tb\u{2003}c\n\nd  "), strs(&["a", "b", "c", "d"]));
    assert_eq!(program_words(""), Vec::<String>::new());
    assert_eq!(program_words(" \t "), Vec::<String>::new());
}

#[test]
fn program_words_keep_quoted_stretches() {
    assert_eq!(program_words("sh -c \"echo a  b\" x"), strs(&["sh", "-c", "\"echo a  b\"", "x"]));
    assert_eq!(program_words("a'b c'd e"), strs(&["a'b c'd", "e"]));
    assert_eq!(program_words("say \"it's ok\""), strs(&["say", "\"it's ok\""]));
    assert_eq!(program_words("x 'open end"), strs(&["x", "'open end"]));
    assert_eq!(program_words("''"), strs(&["''"]));
}

#[test]
fn make_diff_identical() {
    assert_eq!(make_diff("a\nb\n", "a\nb\n"), " a\n b\n");
}

#[test]
fn make_diff_changed_line() {
    assert_eq!(make_diff("a\nb\n", "a\nc\n"), " a\n-b\n+c\n");
}

#[test]
fn make_diff_uneven_lengths() {
    assert_eq!(make_diff("a\nb\nc", "a"), " a\n-b\n-c\n");
    assert_eq!(make_diff("a", "a\nb"), " a\n+b\n");
}

#[test]
fn make_diff_empty_texts() {
    assert_eq!(make_diff("", ""), "");
    assert_eq!(make_diff("", "x"), "+x\n");
}

#[test]
fn make_diff_treats_crlf_as_newline() {
    assert_eq!(make_diff("a\r\nb", "a\nb\n"), " a\n b\n");
    assert_eq!(make_diff("a\r", "a"), "-a\r\n+a\n");
}

#[test]
fn make_diff_recovers_both_sides() {
    let a = "one\ntwo\nthree\nfour";
    let b = "one\n2\nthree";
    let d = make_diff(a, b);
    let old: Vec<&str> = d
        .lines()
        .filter(|l| l.starts_with(' ') || l.starts_with('-'))
        .map(|l| &l[1..])
        .collect();
    let new: Vec<&str> = d
        .lines()
        .filter(|l| l.starts_with(' ') || l.starts_with('+'))
        .map(|l| &l[1..])
        .collect();
    assert_eq!(old, a.lines().collect::<Vec<_>>());
    assert_eq!(new, b.lines().collect::<Vec<_>>());
}

#[test]
fn parse_program_splits_command() {
    let (cmd, args) = parse_program("python old.py");
    assert_eq!(cmd, "python");
    assert_eq!(args, strs(&["old.py"]));
}

#[test]
fn parse_program_without_words_keeps_string() {
    let (cmd, args) = parse_program("   ");
    assert_eq!(cmd, "   ");
    assert!(args.is_empty());
}

#[test]
fn compound_program_string_works() {
    let (cmd, args) = parse_program("bash -c 'echo hello'");
    assert_eq!(cmd, "bash");
    assert_eq!(args, strs(&["-c", "'echo hello'"]));
}

#[test]
fn invocation_appends_input_args() {
    let input = InputSource::Args(strs(&["x", "y z"]));
    let (cmd, args) = invocation("python3 main.py", &input);
    assert_eq!(cmd, "python3");
    assert_eq!(args, strs(&["main.py", "x", "y z"]));
    let (cmd, args) = invocation("./prog", &InputSource::Stdin);
    assert_eq!(cmd, "./prog");
    assert!(args.is_empty());
}

#[test]
fn labels_of_inputs() {
    assert_eq!(input_label(&InputSource::Args(vec![])), "(no args)");
    assert_eq!(input_label(&InputSource::Args(strs(&["a", "b c"]))), "a b c");
    assert_eq!(input_label(&InputSource::Args(strs(&[""]))), "");
    assert_eq!(input_label(&InputSource::Stdin), "(stdin)");
}

#[test]
fn label_splits_back_into_args() {
    let args = strs(&["hello", "world", "42"]);
    let label = input_label(&InputSource::Args(args.clone()));
    assert_eq!(shell_words(&label), args);
}

#[test]
fn compare_identical_outputs_pass() {
    let a = out("hi\n", "warn\n", 0);
    let b = out("hi\n", "other\n", 0);
    match compare_outputs("t".to_string(), &a, &b, false) {
        RunResult::Pass { label } => assert_eq!(label, "t"),
        _ => panic!("expected pass"),
    }
}

#[test]
fn compare_stdout_mismatch_fails_with_diff() {
    let a = out("hi\n", "", 0);
    let b = out("ho\n", "", 0);
    match compare_outputs("t".to_string(), &a, &b, true) {
        RunResult::Fail { label, stdout_diff, stderr_diff, exit_a, exit_b } => {
            assert_eq!(label, "t");
            assert_eq!(stdout_diff.as_deref(), Some("-hi\n+ho\n"));
            assert_eq!(stderr_diff, None);
            assert_eq!((exit_a, exit_b), (0, 0));
        }
        _ => panic!("expected fail"),
    }
}

#[test]
fn compare_exit_code_mismatch_fails_without_diff() {
    let a = out("same", "", 0);
    let b = out("same", "", 1);
    match compare_outputs("t".to_string(), &a, &b, false) {
        RunResult::Fail { stdout_diff, stderr_diff, exit_a, exit_b, .. } => {
            assert_eq!(stdout_diff, None);
            assert_eq!(stderr_diff, None);
            assert_eq!((exit_a, exit_b), (0, 1));
        }
        _ => panic!("expected fail"),
    }
}

#[test]
fn compare_stderr_only_when_asked() {
    let a = out("", "e1", 0);
    let b = out("", "e2", 0);
    assert!(matches!(compare_outputs("t".into(), &a, &b, false), RunResult::Pass { .. }));
    match compare_outputs("t".into(), &a, &b, true) {
        RunResult::Fail { stderr_diff, stdout_diff, .. } => {
            assert_eq!(stderr_diff.as_deref(), Some("-e1\n+e2\n"));
            assert_eq!(stdout_diff, None);
        }
        _ => panic!("expected fail"),
    }
}

#[test]
fn failure_messages() {
    let messages = [
        (FailureStage::ReadStdin, "Failed to read stdin: boom"),
        (FailureStage::RunA, "A failed to execute: boom"),
        (FailureStage::RunB, "B failed to execute: boom"),
    ];
    for (stage, want) in messages {
        match failure_result("l".to_string(), stage, "boom") {
            RunResult::Error { label, message } => {
                assert_eq!(label, "l");
                assert_eq!(message, want);
            }
            _ => panic!("expected error"),
        }
    }
}

#[test]
fn poll_decisions() {
    assert_eq!(poll_action(true, 100, 10), PollAction::Collect);
    assert_eq!(poll_action(false, 10, 10), PollAction::Kill);
    assert_eq!(poll_action(false, 9, 10), PollAction::Sleep);
}

#[test]
fn timeout_messages() {
    assert_eq!(timeout_message(30), "timed out after 30s");
    assert_eq!(timeout_message(0), "timed out after 0s");
    assert_eq!(timeout_message(1205), "timed out after 1205s");
}

fn args_of(c: &InputSource) -> Vec<String> {
    match c {
        InputSource::Args(a) => a.clone(),
        _ => panic!("expected args"),
    }
}

#[test]
fn test_cases_from_stdin_flag() {
    let cases = test_cases(true, Some(&strs(&["x"])));
    assert_eq!(cases.len(), 1);
    assert!(matches!(cases[0], InputSource::Stdin));
}

#[test]
fn test_cases_from_inputs() {
    let inputs = strs(&["Naledi", "World", "", "\"a b\" c"]);
    let cases = test_cases(false, Some(&inputs));
    assert_eq!(cases.len(), 4);
    assert_eq!(args_of(&cases[0]), strs(&["Naledi"]));
    assert_eq!(args_of(&cases[1]), strs(&["World"]));
    assert!(args_of(&cases[2]).is_empty());
    assert_eq!(args_of(&cases[3]), strs(&["a b", "c"]));
}

#[test]
fn smoke_test_cases() {
    let cases = test_cases(false, None);
    assert_eq!(cases.len(), 7);
    assert!(args_of(&cases[0]).is_empty());
    assert_eq!(args_of(&cases[1]), strs(&["hello"]));
    assert_eq!(args_of(&cases[2]), strs(&["Hello, World!"]));
    assert_eq!(args_of(&cases[3]), strs(&[""]));
    assert_eq!(args_of(&cases[4]), strs(&["42"]));
    assert_eq!(args_of(&cases[5]), strs(&["-1"]));
    assert_eq!(args_of(&cases[6]), strs(&["a", "b", "c"]));
}

fn sample_results() -> Vec<RunResult> {
    vec![
        RunResult::Pass { label: "a".into() },
        RunResult::Fail {
            label: "b".into(),
            stdout_diff: None,
            stderr_diff: None,
            exit_a: 0,
            exit_b: 1,
        },
        RunResult::Error { label: "c".into(), message: "m".into() },
        RunResult::Pass { label: "d".into() },
    ]
}

#[test]
fn tally_counts_each_kind() {
    let t = tally(&sample_results());
    assert_eq!(t, Tally { passed: 2, failed: 1, errored: 1 });
    assert!(!all_passed(&t));
    assert!(all_passed(&Tally { passed: 3, failed: 0, errored: 0 }));
    assert!(!all_passed(&Tally { passed: 3, failed: 0, errored: 1 }));
}

#[test]
fn header_names_both_programs() {
    let lines = header_lines("./old", "./new");
    assert_eq!(lines.len(), 4);
    assert!(lines[0].contains("difftest"));
    assert_eq!(lines[1], "  \x1b[2mA (oracle):\x1b[0m    \x1b[36m./old\x1b[0m");
    assert_eq!(lines[2], "  \x1b[2mB (candidate):\x1b[0m  \x1b[36m./new\x1b[0m");
    assert_eq!(lines[3], "");
}

#[test]
fn running_line_counts_cases() {
    assert_eq!(running_line(1), "  \x1b[2mRunning 1 test case...\x1b[0m\n");
    assert_eq!(running_line(7), "  \x1b[2mRunning 7 test cases...\x1b[0m\n");
}

#[test]
fn pass_and_error_lines() {
    let p = result_lines(&RunResult::Pass { label: "Naledi".into() }, false);
    assert_eq!(p, strs(&["  \x1b[1m\x1b[32mPASS\x1b[0m  Naledi"]));
    let e = result_lines(
        &RunResult::Error { label: "x".into(), message: "A failed to execute: nope".into() },
        false,
    );
    assert_eq!(e, strs(&["  \x1b[1m\x1b[33mERR \x1b[0m  x \u{2014} A failed to execute: nope"]));
}

#[test]
fn fail_lines_show_exit_codes_and_colored_diff() {
    let r = RunResult::Fail {
        label: "test".into(),
        stdout_diff: Some(" same\n-old\n+new\n".into()),
        stderr_diff: None,
        exit_a: 0,
        exit_b: -1,
    };
    let lines = result_lines(&r, false);
    assert_eq!(
        lines,
        strs(&[
            "  \x1b[1m\x1b[31mFAIL\x1b[0m  test",
            "        \x1b[2mexit code:\x1b[0m A=0, B=-1",
            "        \x1b[2mstdout:\x1b[0m",
            "           same",
            "          \x1b[31m-old\x1b[0m",
            "          \x1b[32m+new\x1b[0m",
        ])
    );
}

#[test]
fn quiet_mode_shows_only_status() {
    let r = RunResult::Fail {
        label: "test".into(),
        stdout_diff: Some("-a\n+b\n".into()),
        stderr_diff: Some("-c\n+d\n".into()),
        exit_a: 0,
        exit_b: 2,
    };
    let lines = result_lines(&r, true);
    assert_eq!(lines.len(), 1);
    assert!(lines[0].contains("FAIL"));
    assert!(!lines[0].contains("stdout:"));
}

#[test]
fn summary_when_all_pass() {
    let lines = summary_lines(&Tally { passed: 2, failed: 0, errored: 0 });
    assert_eq!(lines.len(), 3);
    assert_eq!(lines[0], "");
    assert!(lines[1].contains("2/2 passed"));
    assert!(lines[1].contains("programs are behaviorally equivalent"));
    assert_eq!(lines[2], "");
}

#[test]
fn summary_with_failures_and_errors() {
    let lines = summary_lines(&Tally { passed: 1, failed: 2, errored: 3 });
    assert_eq!(
        lines[1],
        "  \x1b[1m\x1b[31m\u{2717}\x1b[0m 1/6 passed, \x1b[31m2 failed\x1b[0m, \x1b[33m3 errors\x1b[0m"
    );
    let lines = summary_lines(&Tally { passed: 0, failed: 1, errored: 0 });
    assert_eq!(lines[1], "  \x1b[1m\x1b[31m\u{2717}\x1b[0m 0/1 passed, \x1b[31m1 failed\x1b[0m");
}

#[test]
fn smoke_run_summary_reads_seven_of_seven() {
    let results: Vec<RunResult> = test_cases(false, None)
        .iter()
        .map(|c| RunResult::Pass { label: input_label(c) })
        .collect();
    let t = tally(&results);
    assert!(all_passed(&t));
    assert!(summary_lines(&t)[1].contains("7/7 passed"));
}

#[test]
fn whitespace_test_matches_std_for_every_char() {
    for code in 0u32..=0x10FFFF {
        if let Some(c) = char::from_u32(code) {
            assert_eq!(difftest::text::is_whitespace(c), c.is_whitespace(), "U+{:04X}", code);
        }
    }
}

#[test]
fn diff_lines_follow_std_lines() {
    let samples = ["", "\n", "\n\n", "a\r\n\r\n", "a\rb", "\r\n", "x\r", "a\n\rb\n", "tail"];
    for s in samples {
        let want: String = s.lines().map(|l| format!("-{}\n", l)).collect();
        assert_eq!(make_diff(s, ""), want, "{:?}", s);
    }
}

#[test]
fn compare_decides_on_bytes_not_text() {
    let a = ProgramOutput { stdout: vec![b'x', 0xff], stderr: vec![], exit_code: 0 };
    let b = ProgramOutput { stdout: vec![b'x', 0xfe], stderr: vec![], exit_code: 0 };
    match compare_outputs("t".into(), &a, &b, false) {
        RunResult::Fail { stdout_diff, .. } => {
            assert_eq!(stdout_diff.as_deref(), Some(" x\u{FFFD}\n"));
        }
        _ => panic!("different bytes must not pass"),
    }
    let c = ProgramOutput { stdout: vec![b'x', 0xff], stderr: vec![], exit_code: 0 };
    assert!(matches!(compare_outputs("t".into(), &a, &c, false), RunResult::Pass { .. }));
}

#[test]
fn diff_shows_decoded_text() {
    let a = out("caf\u{e9}\n", "", 0);
    let b = out("cafe\n", "", 0);
    match compare_outputs("t".into(), &a, &b, false) {
        RunResult::Fail { stdout_diff, .. } => {
            assert_eq!(stdout_diff.as_deref(), Some("-caf\u{e9}\n+cafe\n"));
        }
        _ => panic!("expected fail"),
    }
}
