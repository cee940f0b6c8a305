use kirk::com::{Attempt, Attempts, CmdResult, ComChannel, Plugin};
use kirk::errors::KirkError;
use kirk::output::{ByteCollector, OutputCollector};
use kirk::shell::{
    check_fetch_size, exit_code, split_argv, CommandOutput, ShellChannel, MAX_FETCH_BYTES,
    MAX_OUTPUT_BYTES,
};
use kirk::textmap::TextMap;

#[test]
fn split_simple_words() {
    assert_eq!(
        split_argv("echo 0").expect("simple split"),
        vec!["echo", "0"]
    );
}

#[test]
fn split_quotes_and_escapes() {
    assert_eq!(
        split_argv(r#"echo 'a b' "c d" e\ f"#).expect("quoted split"),
        vec!["echo", "a b", "c d", "e f"]
    );
}

#[test]
fn split_rejects_empty_and_blank() {
    assert!(split_argv("").is_err());
    assert!(split_argv("   ").is_err());
}

#[test]
fn split_rejects_shell_operators() {
    for command in [
        "echo hi > /tmp/x",
        "echo a | grep a",
        "sleep 1; echo done",
        "sleep 1 && echo done",
        "echo `id`",
        "echo $(id)",
        "echo (group)",
    ] {
        assert!(split_argv(command).is_err(), "{command} must be rejected");
    }
}

#[test]
fn split_rejects_substitution_but_keeps_bare_dollar() {
    assert!(split_argv("echo -n $PWD").is_err());
    assert_eq!(split_argv("echo price: $").expect("bare dollar").len(), 3);
    for command in ["echo $@", "echo $-", "echo $!", "echo $*"] {
        assert!(split_argv(command).is_err(), "{command} must be rejected");
    }
}

#[test]
fn split_rejects_unclosed_quote() {
    assert!(split_argv("echo 'oops").is_err());
}

#[test]
fn substitution_of_wide_letters_is_rejected() {
    assert!(split_argv("echo $é").is_err());
    assert!(split_argv("echo $°").is_ok());
}

#[test]
fn channel_metadata() {
    let channel = ShellChannel::new();
    assert_eq!(channel.name(), "shell");
    assert!(channel.parallel_execution());
    assert!(channel.config_help().is_empty());

    let renamed = channel.renamed("newchan");
    assert_eq!(renamed.name(), "newchan");
    assert!(renamed.parallel_execution());
}

#[test]
fn ping_requires_active() {
    let channel = ShellChannel::new();
    assert!(matches!(
        channel.admit_command("test .", None, None),
        Err(KirkError::Communication(_))
    ));
    assert!(ShellChannel::ping_time(&None).is_err());
}

#[test]
fn ping_reports_time() {
    let result = CmdResult {
        command: "test .".to_owned(),
        returncode: 0,
        stdout: String::new(),
        exec_time: 0.25f64.to_bits(),
    };
    assert_eq!(ShellChannel::ping_time(&Some(result)).unwrap(), 0.25f64.to_bits());
}

#[test]
fn double_communicate_errors() {
    let mut channel = ShellChannel::new();
    channel.setup(&TextMap::new()).unwrap();
    channel.communicate().unwrap();
    assert!(channel.active());
    let err = channel.communicate().unwrap_err();
    assert_eq!(err.to_string(), "communication error: Shell is running");
}

#[test]
fn stop_is_idempotent() {
    let mut channel = ShellChannel::new();
    channel.communicate().unwrap();
    channel.track(7);
    channel.track(9);
    channel.untrack(7);
    assert_eq!(channel.take_processes(), vec![9]);
    channel.stopped();
    assert!(!channel.active());
    assert!(channel.take_processes().is_empty());
    channel.stopped();
    assert!(!channel.active());
}

#[test]
fn run_command_requires_active() {
    let channel = ShellChannel::new();
    let err = channel.admit_command("echo 0", None, None).unwrap_err();
    assert_eq!(err.to_string(), "communication error: Shell is not running");
}

#[test]
fn run_command_rejects_empty() {
    let mut channel = ShellChannel::new();
    channel.communicate().unwrap();
    assert!(channel.admit_command("", None, None).is_err());
    assert!(channel.admit_command("echo 0", None, None).is_ok());
}

#[test]
fn run_command_rejects_shell_syntax() {
    let mut channel = ShellChannel::new();
    channel.communicate().unwrap();
    let err = channel.admit_command("echo hi > /tmp/x", None, None).unwrap_err();
    assert!(matches!(err, KirkError::Communication(_)));
}

#[test]
fn run_command_echo() {
    let mut channel = ShellChannel::new();
    channel.communicate().unwrap();
    let spawn = channel.admit_command("echo -n ciao", None, None).unwrap();
    assert_eq!(spawn.program, "echo");
    assert_eq!(spawn.args, ["-n", "ciao"]);
    assert_eq!(spawn.cwd, None);
    assert_eq!(spawn.env, None);
}

#[test]
fn run_command_cwd() {
    let mut channel = ShellChannel::new();
    channel.communicate().unwrap();
    let spawn = channel.admit_command("pwd", Some("/tmp"), None).unwrap();
    assert_eq!(spawn.cwd.as_deref(), Some("/tmp"));
}

#[test]
fn run_command_env() {
    let mut channel = ShellChannel::new();
    channel.communicate().unwrap();
    let mut env = TextMap::new();
    let spawn = channel.admit_command("env", None, Some(&env)).unwrap();
    assert_eq!(spawn.env, None);
    env.insert("HELLO", "world");
    let spawn = channel.admit_command("env", None, Some(&env)).unwrap();
    assert_eq!(spawn.env, Some(env));
}

#[test]
fn run_command_failing_reports_shape_and_merges_stderr() {
    let mut output = CommandOutput::new();
    assert_eq!(output.push_stdout(b"out\n").as_deref(), Some("out\n"));
    assert!(output.push_stderr(b"err\n"));
    let (result, stderr) = output.finish("cmd", 3, 0.5f64.to_bits()).unwrap();
    assert_eq!(result.command, "cmd");
    assert_eq!(result.returncode, 3);
    assert_eq!(result.stdout, "out\nerr\n");
    assert_eq!(result.exec_time, 0.5f64.to_bits());
    assert_eq!(stderr, "err\n");
}

#[test]
fn run_command_detects_kernel_panic() {
    let mut output = CommandOutput::new();
    output.push_stdout(b"boot Kernel pa");
    output.push_stdout(b"nic - not syncing");
    let err = output.finish("cmd", 0, 0).unwrap_err();
    assert!(matches!(err, KirkError::KernelPanic(_)));

    let mut output = CommandOutput::new();
    output.push_stderr(b"Kernel panic");
    let err = output.finish("cmd", 0, 0).unwrap_err();
    assert!(matches!(err, KirkError::KernelPanic(_)));
}

#[test]
fn run_command_caps_output() {
    let mut output = CommandOutput::new();
    let chunk = vec![b'x'; 1024 * 1024];
    for _ in 0..9 {
        output.push_stdout(&chunk);
    }
    let err = output.finish("cmd", 0, 0).unwrap_err();
    assert!(matches!(err, KirkError::Communication(_)));
    assert_eq!(MAX_OUTPUT_BYTES, 8 * 1024 * 1024);
}

#[test]
fn output_that_is_no_text_is_replaced() {
    let mut output = CommandOutput::new();
    output.push_stdout(b"a\xffb");
    let (result, _) = output.finish("cmd", 0, 0).unwrap();
    assert_eq!(result.stdout, String::from_utf8_lossy(b"a\xffb"));
}

#[test]
fn exit_codes_tell_signals() {
    assert_eq!(exit_code(Some(3), None), 3);
    assert_eq!(exit_code(None, Some(9)), -9);
    assert_eq!(exit_code(None, None), -1);
}

#[test]
fn fetch_file_bad_args() {
    let mut channel = ShellChannel::new();
    channel.communicate().unwrap();
    assert!(channel.admit_fetch("", true).is_err());
    let err = channel.admit_fetch("/missing", false).unwrap_err();
    assert_eq!(
        err.to_string(),
        "communication error: '/missing' file doesn't exist"
    );
    assert!(channel.admit_fetch("/there", true).is_ok());
    assert!(check_fetch_size("/there", MAX_FETCH_BYTES as u64).is_ok());
    assert!(check_fetch_size("/there", MAX_FETCH_BYTES as u64 + 1).is_err());
}

#[test]
fn fetch_file_requires_active() {
    let channel = ShellChannel::new();
    let err = channel.admit_fetch("/there", true).unwrap_err();
    assert_eq!(err.to_string(), "communication error: Shell is not running");
}

#[test]
fn collectors_agree_on_split_markers() {
    let all = "boot\nKernel panic - not syncing";
    for at in 0..all.len() {
        let mut text = OutputCollector::new();
        let mut bytes = ByteCollector::new();
        for part in [&all[..at], &all[at..]] {
            text.push(part);
            bytes.push(part.as_bytes());
        }
        assert!(text.panicked(), "{at}");
        assert!(bytes.panicked(), "{at}");
        assert_eq!(text.finish(), (all.to_owned(), true));
        assert_eq!(bytes.bytes(), all.as_bytes());
    }
}

#[test]
fn ensure_communicate_fails_when_active() {
    let mut channel = ShellChannel::new();
    channel.communicate().expect("communicate");
    let mut attempts = Attempts::new(1);
    assert!(attempts.is_due());
    let err = channel.communicate().expect_err("ensure while active");
    assert_eq!(attempts.record(false), Attempt::GiveUp);
    assert!(!attempts.is_due());
    assert!(matches!(err, KirkError::Communication(_)));
    channel.stopped();
    assert!(!channel.active());
}
