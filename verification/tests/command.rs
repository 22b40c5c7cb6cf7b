use backend_rove::command::{command_report, finished_text, CommandOutcome, MAX_OUTPUT};

fn finished(code: Option<i32>, stdout: &[u8], stderr: &[u8]) -> (i32, String) {
    command_report(CommandOutcome::Finished {
        code,
        stdout: stdout.to_vec(),
        stderr: stderr.to_vec(),
    })
}

#[test]
fn exec_runs_and_reports() {
    let (code, output) = finished(Some(0), b"hi\n", b"");
    assert_eq!(code, 0);
    assert_eq!(output, "hi\n");
}

#[test]
fn exec_missing_command_fails_loudly() {
    let (code, output) = finished(Some(3), b"", b"");
    assert_eq!(code, 3);
    assert!(output.contains("exit 3"));
}

#[test]
fn standard_error_is_appended() {
    assert_eq!(
        finished(Some(1), b"out\n", b"oops\n"),
        (1, "out\n\nstderr:\noops\n".to_string())
    );
    assert_eq!(finished(Some(0), b"out\n", b" \n"), (0, "out\n".to_string()));
    assert_eq!(finished(None, b" \n", b"\n"), (-1, "<no output, exit -1>".to_string()));
}

#[test]
fn output_that_is_not_utf8_is_replaced() {
    assert_eq!(
        finished(Some(0), b"a\xffb", b""),
        (0, "a\u{fffd}b".to_string())
    );
    assert_eq!(
        finished(Some(0), b"", b"\xff"),
        (0, "\nstderr:\n\u{fffd}".to_string())
    );
}

#[test]
fn long_output_is_cut() {
    let text = "x".repeat(MAX_OUTPUT);
    assert_eq!(finished_text(0, text.clone(), ""), text);
    let longer = "x".repeat(MAX_OUTPUT + 1);
    assert_eq!(finished_text(0, longer, ""), format!("{text}\n…(output truncated)"));
    // A cut never falls inside a character.
    let wide = format!("x{}", "é".repeat(6000));
    assert_eq!(
        finished_text(0, wide, ""),
        format!("x{}\n…(output truncated)", "é".repeat(5999))
    );
}

#[test]
fn failures_are_told_in_the_output() {
    assert_eq!(
        command_report(CommandOutcome::NotStarted("gone".to_string())),
        (-1, "failed to start shell: gone".to_string())
    );
    assert_eq!(
        command_report(CommandOutcome::Unreadable("broken".to_string())),
        (-1, "failed to read command output: broken".to_string())
    );
    assert_eq!(
        command_report(CommandOutcome::TimedOut),
        (-1, "command timed out after 30s and was killed".to_string())
    );
}
