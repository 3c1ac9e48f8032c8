use vshell::engine::{
    directory_changed, expand_home, home_missing, kill_failed, next_wait_action, plan, plan_words,
    record_output, shell_command_line, shell_failed, spawn_failed, FailureKind, Plan,
    ProcessFailure, ProcessOutput, WaitAction,
};
use vshell::model::{CompletedCommand, Origin, Output, OutputType};

fn failed(input: &str, origin: Origin, message: &str) -> CompletedCommand {
    CompletedCommand {
        input: input.to_string(),
        output: Output {
            origin,
            output_type: OutputType::Error(String::new(), message.to_string()),
        },
    }
}

fn words(list: &[&str]) -> Option<Vec<String>> {
    Some(list.iter().map(|w| w.to_string()).collect())
}

#[test]
fn plan_splits_like_a_shell() {
    assert_eq!(
        plan("echo 'a b'  \"c d\" e\\ f"),
        Plan::Spawn(
            "echo".to_string(),
            vec!["a b".to_string(), "c d".to_string(), "e f".to_string()]
        )
    );
    assert_eq!(plan("ls"), Plan::Spawn("ls".to_string(), Vec::new()));
}

#[test]
fn plan_drops_empty_arguments() {
    assert_eq!(
        plan("echo '' a \"\""),
        Plan::Spawn("echo".to_string(), vec!["a".to_string()])
    );
}

#[test]
fn plan_of_a_malformed_line_fails() {
    assert_eq!(
        plan("echo 'a"),
        Plan::Done(failed(
            "echo 'a",
            Origin::Vshell,
            "Could not parse command: malformed quoting"
        ))
    );
    assert_eq!(
        plan("echo \\"),
        Plan::Done(failed(
            "echo \\",
            Origin::Vshell,
            "Could not parse command: malformed quoting"
        ))
    );
}

#[test]
fn plan_of_a_blank_line_fails() {
    assert_eq!(
        plan("   "),
        Plan::Done(failed("   ", Origin::Vshell, "No command given"))
    );
}

#[test]
fn plan_of_cd() {
    assert_eq!(plan("cd"), Plan::GoHome);
    assert_eq!(plan("cd /tmp"), Plan::GoTo("/tmp".to_string()));
    assert_eq!(plan("cd \"my dir\""), Plan::GoTo("my dir".to_string()));
    assert_eq!(plan("cd ~/x"), Plan::GoHomeRelative("~/x".to_string()));
    assert_eq!(plan("cd ''"), Plan::GoTo(String::new()));
    assert_eq!(
        plan("cd a b"),
        Plan::Done(failed(
            "cd a b",
            Origin::Vshell,
            "cd: incorrect number of arguments"
        ))
    );
    assert_eq!(
        plan("cdx"),
        Plan::Spawn("cdx".to_string(), Vec::new())
    );
}

#[test]
fn plan_from_given_words() {
    assert_eq!(
        plan_words("x", words(&["prog", "", "a", ""])),
        Plan::Spawn("prog".to_string(), vec!["a".to_string()])
    );
    assert_eq!(
        plan_words("x", words(&[""])),
        Plan::Spawn(String::new(), Vec::new())
    );
    assert_eq!(
        plan_words("x", words(&[])),
        Plan::Done(failed("x", Origin::Vshell, "No command given"))
    );
    assert_eq!(
        plan_words("x", None),
        Plan::Done(failed(
            "x",
            Origin::Vshell,
            "Could not parse command: malformed quoting"
        ))
    );
    assert_eq!(plan_words("x", words(&["cd", "a~"])), Plan::GoHomeRelative("a~".to_string()));
}

#[test]
fn home_is_put_in_for_each_tilde() {
    assert_eq!(expand_home("~/x", "/home/me"), "/home/me/x");
    assert_eq!(expand_home("~/~", "/h"), "/h//h");
    assert_eq!(expand_home("a", "/h"), "a");
    assert_eq!(expand_home("~", ""), "");
}

#[test]
fn outcome_of_cd() {
    assert_eq!(
        directory_changed("cd /tmp", None),
        CompletedCommand {
            input: "cd /tmp".to_string(),
            output: Output {
                origin: Origin::Vshell,
                output_type: OutputType::Success(String::new(), String::new()),
            },
        }
    );
    assert_eq!(
        directory_changed("cd /nope", Some("No such file or directory (os error 2)")),
        failed(
            "cd /nope",
            Origin::Vshell,
            "cd: No such file or directory (os error 2)"
        )
    );
    assert_eq!(
        home_missing("cd"),
        failed("cd", Origin::Vshell, "cd: could not find home directory")
    );
}

fn refusal(kind: FailureKind) -> ProcessFailure {
    ProcessFailure {
        kind,
        message: "system words".to_string(),
    }
}

#[test]
fn spawn_failures() {
    assert_eq!(
        spawn_failed("nope -x", "nope", &refusal(FailureKind::NotFound)),
        failed("nope -x", Origin::Vshell, "Command not found: nope")
    );
    assert_eq!(
        spawn_failed("./x", "./x", &refusal(FailureKind::PermissionDenied)),
        failed("./x", Origin::Vshell, "Permission denied")
    );
    assert_eq!(
        spawn_failed("x", "x", &refusal(FailureKind::Other)),
        failed("x", Origin::Vshell, "Could not spawn process: system words")
    );
}

#[test]
fn kill_failures_are_errors() {
    assert_eq!(
        kill_failed("sleep 9", "sleep", &refusal(FailureKind::NotFound)),
        failed("sleep 9", Origin::Vshell, "Command not found: sleep")
    );
    assert_eq!(
        kill_failed("sleep 9", "sleep", &refusal(FailureKind::PermissionDenied)),
        failed("sleep 9", Origin::Vshell, "Permission denied")
    );
    assert_eq!(
        kill_failed("sleep 9", "sleep", &refusal(FailureKind::Other)),
        failed("sleep 9", Origin::Vshell, "Could not kill process: system words")
    );
}

#[test]
fn shell_lines_and_failures() {
    assert_eq!(shell_command_line("ls", None), "ls");
    assert_eq!(shell_command_line("ls", Some("time ".to_string())), "time ls");
    assert_eq!(
        shell_failed("time ls", "bash", "spawn", "gone"),
        failed(
            "time ls",
            Origin::Other("bash".to_string()),
            "Could not spawn process: gone"
        )
    );
    assert_eq!(
        shell_failed("time ls", "bash", "kill", "gone"),
        failed(
            "time ls",
            Origin::Other("bash".to_string()),
            "Could not kill process: gone"
        )
    );
}

#[test]
fn waiting() {
    assert_eq!(next_wait_action(true, false), WaitAction::Collect);
    assert_eq!(next_wait_action(true, true), WaitAction::Collect);
    assert_eq!(next_wait_action(false, true), WaitAction::Kill);
    assert_eq!(next_wait_action(false, false), WaitAction::Poll);
}

#[test]
fn completed_command_from_a_process() {
    let left = |success: bool| ProcessOutput {
        success,
        stdout: b"out\n".to_vec(),
        stderr: vec![b'e', 0xff, b'r'],
    };
    assert_eq!(
        CompletedCommand::new("ls".to_string(), Ok(left(true)), Origin::Vshell),
        CompletedCommand {
            input: "ls".to_string(),
            output: Output {
                origin: Origin::Vshell,
                output_type: OutputType::Success("out\n".to_string(), "e\u{fffd}r".to_string()),
            },
        }
    );
    assert_eq!(
        CompletedCommand::new(
            "ls".to_string(),
            Ok(left(false)),
            Origin::Other("sh".to_string())
        ),
        CompletedCommand {
            input: "ls".to_string(),
            output: Output {
                origin: Origin::Other("sh".to_string()),
                output_type: OutputType::Error("out\n".to_string(), "e\u{fffd}r".to_string()),
            },
        }
    );
}

#[test]
fn completed_command_from_a_failed_wait() {
    assert_eq!(
        CompletedCommand::new(
            "ls -l".to_string(),
            Err(refusal(FailureKind::NotFound)),
            Origin::Vshell
        ),
        failed("ls -l", Origin::Vshell, "Command not found: ls -l")
    );
    assert_eq!(
        CompletedCommand::new(
            "ls -l".to_string(),
            Err(refusal(FailureKind::Other)),
            Origin::Other("sh".to_string())
        ),
        failed("ls -l", Origin::Other("sh".to_string()), "system words")
    );
    assert_eq!(
        CompletedCommand::new(
            "ls".to_string(),
            Err(refusal(FailureKind::PermissionDenied)),
            Origin::Vshell
        ),
        failed("ls", Origin::Vshell, "system words")
    );
}

#[test]
fn recorded_output() {
    assert_eq!(
        record_output(
            "x".to_string(),
            true,
            "o".to_string(),
            "e".to_string(),
            Origin::Vshell
        ),
        CompletedCommand {
            input: "x".to_string(),
            output: Output {
                origin: Origin::Vshell,
                output_type: OutputType::Success("o".to_string(), "e".to_string()),
            },
        }
    );
}
