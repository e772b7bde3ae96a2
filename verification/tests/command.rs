use gameperf::command::{cmd_result, split_args, UtilError};

#[test]
fn successful_command_keeps_raw_output() {
    let r = cmd_result(
        "adb",
        "shell getprop",
        true,
        "exit status: 0",
        "  out  \n".to_string(),
        "".to_string(),
    )
    .unwrap();
    assert!(r.succeeded);
    assert_eq!(r.stdout, "  out  \n");
    assert_eq!(r.stderr, "");
}

#[test]
fn failed_command_carries_trimmed_diagnostics() {
    let e = cmd_result(
        "adb",
        "shell ps -e",
        false,
        "exit status: 1",
        "  partial out \n".to_string(),
        "\terror: device offline\n".to_string(),
    )
    .unwrap_err();
    match e {
        UtilError::Execution { program, args, status, stdout, stderr } => {
            assert_eq!(program, "adb");
            assert_eq!(args, "shell ps -e");
            assert_eq!(status, "exit status: 1");
            assert_eq!(stdout, "partial out");
            assert_eq!(stderr, "error: device offline");
        }
        _ => panic!("expected an execution error"),
    }
}

#[test]
fn args_are_whitespace_split() {
    assert_eq!(split_args("shell dumpsys meminfo com.example"), vec![
        "shell".to_string(),
        "dumpsys".to_string(),
        "meminfo".to_string(),
        "com.example".to_string(),
    ]);
    assert_eq!(split_args("  one   two\tthree "), vec![
        "one".to_string(),
        "two".to_string(),
        "three".to_string(),
    ]);
    assert!(split_args("").is_empty());
}
