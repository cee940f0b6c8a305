use kirk::com::{ComChannel, Plugin};
use kirk::errors::KirkError;
use kirk::qemu::channel::{
    check_transport_size, exec_line, generate_code, login_outcome, login_steps, setup_step,
    transport_end, LoginStep, QemuChannel, StopStage, CODE_LEN,
};
use kirk::qemu::config::{HostPaths, QemuConfig, SerialType};
use kirk::qemu::expect::{
    panic_excerpt, parse_reply, shell_quote, split_options, validate_env_key, Expect, ExpectState,
    ExpectStep, SerialRead, EXCERPT_BYTES, MAX_STDOUT_BYTES, MAX_TRANSPORT_BYTES,
};
use kirk::textmap::TextMap;

fn map(pairs: &[(&str, &str)]) -> TextMap {
    let mut map = TextMap::new();
    for (key, value) in pairs {
        map.insert(key, value);
    }
    map
}

fn host() -> HostPaths {
    HostPaths {
        tmpdir_is_dir: true,
        image_is_file: true,
        kernel_is_file: true,
        initrd_is_file: true,
        virtfs_is_dir: true,
    }
}

fn valid_map(tmpdir: &str) -> TextMap {
    map(&[("tmpdir", tmpdir)])
}

#[test]
fn config_defaults_match_upstream() {
    let cfg = QemuConfig::from_map(&valid_map("/tmp"), host()).expect("temp dir exists");
    assert_eq!(cfg.prompt, "#");
    assert_eq!(cfg.system, "x86_64");
    assert_eq!(cfg.ram, "2G");
    assert_eq!(cfg.smp, "2");
    assert_eq!(cfg.serial, SerialType::Isa);
    assert_eq!(cfg.qemu_cmd(), "qemu-system-x86_64");
}

#[test]
fn bad_tmpdir_is_communication_error() {
    let missing = HostPaths { tmpdir_is_dir: false, ..host() };
    let err = QemuConfig::from_map(&valid_map("/no-such-kirk-dir-xyz"), missing)
        .expect_err("missing tmpdir must fail");
    assert!(matches!(err, KirkError::Communication(_)));
}

#[test]
fn bad_serial_is_communication_error() {
    let mut cfg = valid_map("/tmp");
    cfg.insert("serial", "usb");
    let err = QemuConfig::from_map(&cfg, host()).expect_err("bad serial must fail");
    assert!(matches!(err, KirkError::Communication(_)));
}

#[test]
fn missing_files_are_communication_errors() {
    for (key, facts) in [
        ("image", HostPaths { image_is_file: false, ..host() }),
        ("kernel", HostPaths { kernel_is_file: false, ..host() }),
        ("initrd", HostPaths { initrd_is_file: false, ..host() }),
        ("virtfs", HostPaths { virtfs_is_dir: false, ..host() }),
    ] {
        let mut cfg = valid_map("/tmp");
        assert!(QemuConfig::from_map(&cfg, facts).is_ok(), "{key}");
        cfg.insert(key, "/missing");
        let err = QemuConfig::from_map(&cfg, facts).expect_err("missing file must fail");
        assert!(matches!(err, KirkError::Communication(_)), "{key}");
    }
}

#[test]
fn transport_dev_per_serial() {
    let base = QemuConfig::from_map(&valid_map("/tmp"), host()).expect("valid");
    assert_eq!(base.transport(7).0, "/dev/ttyS1");
    let virtio = QemuConfig {
        serial: SerialType::Virtio,
        ..base
    };
    assert_eq!(virtio.transport(7).0, "/dev/vport1p1");
    assert!(virtio.transport(7).1.ends_with("/transport-7"));
}

/// Wait for `message` over `chunks`; time is over when they are used up.
fn wait_for_message(
    state: &mut ExpectState,
    chunks: &[&str],
    message: &str,
    cancel: bool,
) -> Result<String, KirkError> {
    let mut left = chunks.iter();
    let mut wait = Expect::new(state, message);
    let mut expired = false;
    loop {
        match wait.step(state, cancel, expired) {
            ExpectStep::Done(outcome) => return outcome,
            ExpectStep::Settle => return Err(wait.settled(state, left.next().copied())),
            ExpectStep::Read => match left.next() {
                Some(chunk) => {
                    let read = SerialRead::Chunk(chunk.to_string());
                    if let Some(e) = wait.receive(state, read) {
                        return Err(e);
                    }
                }
                None => expired = true,
            },
        }
    }
}

fn fresh() -> ExpectState {
    ExpectState { pending: String::new(), panicked: false }
}

#[test]
fn message_split_across_chunks() {
    let mut state = fresh();
    let chunks = ["hel", "lo wor", "ld#", " next"];
    let out = wait_for_message(&mut state, &chunks, "hello world", false)
        .expect("message arrives across chunks");
    assert!(out.contains("hello world"));
    // The loop stops at the first match; `" next"` stays unread.
    assert_eq!(state.pending, "#");
}

#[test]
fn pending_carryover_is_used() {
    let mut state = ExpectState {
        pending: "old # prompt".to_string(),
        panicked: false,
    };
    let out = wait_for_message(&mut state, &[], "#", false)
        .expect("pending already holds the message");
    assert_eq!(out, "old # prompt");
    assert_eq!(state.pending, " prompt");
}

#[test]
fn timeout_errors() {
    let mut state = fresh();
    let err = wait_for_message(&mut state, &["noise "], "never-comes", false)
        .expect_err("missing message must time out");
    assert!(matches!(err, KirkError::Communication(_)));
    assert_eq!(
        err.to_string(),
        "communication error: Timed out waiting for \"never-comes\""
    );
    assert_eq!(state.pending, "noise ");
}

#[test]
fn kernel_panic_raises() {
    let mut state = fresh();
    let err = wait_for_message(&mut state, &["booting\nKernel panic - not syncing"], "#", false)
        .expect_err("panic must raise");
    assert!(matches!(err, KirkError::KernelPanic(_)));
    assert!(state.panicked);
}

#[test]
fn cancel_aborts_cleanly() {
    let mut state = fresh();
    let out =
        wait_for_message(&mut state, &[], "#", true).expect("cancel aborts without error");
    assert!(out.is_empty());
}

#[test]
fn serial_faults_end_the_wait() {
    let mut state = fresh();
    let mut wait = Expect::new(&mut state, "#");
    assert!(wait.receive(&mut state, SerialRead::Chunk("some".to_owned())).is_none());
    let err = wait.receive(&mut state, SerialRead::Failed("gone".to_owned())).unwrap();
    assert_eq!(err.to_string(), "communication error: gone");
    assert_eq!(state.pending, "some");
    let err = wait.receive(&mut state, SerialRead::TimedOut).unwrap();
    assert!(matches!(err, KirkError::Communication(_)));
    let much = "x".repeat(MAX_STDOUT_BYTES);
    let err = wait.receive(&mut state, SerialRead::Chunk(much)).unwrap();
    assert!(err.to_string().contains("8 MiB cap"));
}

#[test]
fn excerpt_keeps_the_end() {
    assert_eq!(panic_excerpt("short"), "short");
    let long = format!("{}é{}", "a".repeat(EXCERPT_BYTES), "b".repeat(EXCERPT_BYTES - 1));
    let shown = panic_excerpt(&long);
    assert_eq!(shown, format!("é{}", "b".repeat(EXCERPT_BYTES - 1)));
}

#[test]
fn retcode_parse_ok() {
    let (out, retcode) = parse_reply("\nhello\n42-abc123\n# ", "abc123").expect("parses");
    assert_eq!(out, "hello\n");
    assert_eq!(retcode, 42);
}

#[test]
fn retcode_parse_missing_marker() {
    let err = parse_reply("\nsome output\n# ", "abc123").expect_err("must fail");
    assert!(matches!(err, KirkError::Communication(_)));
}

#[test]
fn retcode_parse_blank_yields_minus_one() {
    let (out, retcode) = parse_reply("  \n ", "abc123").expect("blank is fine");
    assert_eq!(retcode, -1);
    assert_eq!(out, "  \n ");
}

#[test]
fn reply_is_found_where_the_pattern_finds_it() {
    let code = "aB3";
    let pattern = regex::Regex::new(r"(?P<retcode>\d+)-aB3").unwrap();
    for text in [
        "\n0-aB3",
        "x12-aB3 13-aB3",
        "-aB3",
        "\nout 7-aB 8-aB3",
        "\n\u{661}5-aB3",
        "\n5\u{661}-aB3",
        "é1-aB3",
        "éok\n1-aB3",
        "99999999999-aB3",
        "1-aB3",
    ] {
        let found = pattern.captures(text);
        let read = parse_reply(text, code);
        match found {
            None => assert!(read.is_err(), "{text:?}"),
            Some(caps) => {
                let digits = &caps["retcode"];
                match digits.parse::<i32>() {
                    Ok(n) => {
                        let (out, retcode) = read.unwrap();
                        let start = caps.get(0).unwrap().start();
                        assert_eq!(retcode, n, "{text:?}");
                        assert_eq!(out, text.get(1..start).unwrap_or(""), "{text:?}");
                    }
                    Err(e) => assert_eq!(
                        read.unwrap_err().to_string(),
                        format!("communication error: {e}")
                    ),
                }
            }
        }
    }
}

#[test]
fn only_the_first_byte_of_a_reply_is_dropped() {
    let (out, retcode) = parse_reply("xhello\n42-abc", "abc").expect("parses");
    assert_eq!((out.as_str(), retcode), ("hello\n", 42));
    let (out, retcode) = parse_reply("42-abc", "abc").expect("parses");
    assert_eq!((out.as_str(), retcode), ("", 42));
    let (out, retcode) = parse_reply("éhello\n42-abc", "abc").expect("parses");
    assert_eq!((out.as_str(), retcode), ("", 42));
}

#[test]
fn quoting_cases() {
    assert_eq!(shell_quote(""), "''");
    assert_eq!(shell_quote("/tmp/a b"), "'/tmp/a b'");
    assert_eq!(shell_quote("a'b"), "'a'\\''b'");
}

#[test]
fn env_key_cases() {
    validate_env_key("FOO_BAR1").expect("valid");
    for bad in ["", "1BAD", "A-B", "A B", "A=B"] {
        validate_env_key(bad).expect_err("invalid key");
    }
}

#[test]
fn options_split_cases() {
    assert_eq!(
        split_options("-m 2G -device virtio-rng-pci").expect("splits"),
        vec!["-m", "2G", "-device", "virtio-rng-pci"]
    );
    assert_eq!(
        split_options("-append 'a b' -m 2G").expect("quotes"),
        vec!["-append", "a b", "-m", "2G"]
    );
    split_options("-append 'oops").expect_err("unterminated");
}

fn base_config(tmpdir: &str, serial: &str) -> TextMap {
    map(&[("tmpdir", tmpdir), ("serial", serial)])
}

#[test]
fn rejects_bad_config_values() {
    // Bad tmpdir.
    let mut channel = QemuChannel::new();
    let missing = HostPaths { tmpdir_is_dir: false, ..host() };
    let err = channel
        .setup(&base_config("/no-such-kirk-dir-xyz", "isa"), missing)
        .expect_err("bad tmpdir");
    assert!(matches!(err, KirkError::Communication(_)));

    // Bad serial.
    let mut channel = QemuChannel::new();
    let err = channel
        .setup(&base_config("/tmp", "usb"), host())
        .expect_err("bad serial");
    assert!(matches!(err, KirkError::Communication(_)));

    // Missing image file.
    let mut cfg = base_config("/tmp", "isa");
    cfg.insert("image", "/no-such-image-xyz");
    let missing = HostPaths { image_is_file: false, ..host() };
    let err = channel.setup(&cfg, missing).expect_err("missing image");
    assert!(matches!(err, KirkError::Communication(_)));
}

#[test]
fn setup_defaults_and_transport() {
    let mut channel = QemuChannel::new();
    channel
        .setup(&base_config("/tmp", "isa"), host())
        .expect("valid config");
    assert!(!channel.parallel_execution());
    assert_eq!(channel.name(), "qemu");
    assert!(!channel.config_help().is_empty());
}

#[test]
fn command_shape_isa_vs_virtio() {
    let tmpdir = "/tmp/shape";
    let image = format!("{tmpdir}/disk.img");
    let kernel = format!("{tmpdir}/vmlinuz");

    let mut isa_map = base_config(tmpdir, "isa");
    isa_map.insert("image", &image);
    isa_map.insert("kernel", &kernel);
    let isa = QemuConfig::from_map(&isa_map, host()).expect("isa config");
    let (program, argv) = isa.build_argv(42).expect("isa argv");
    assert_eq!(program, "qemu-system-x86_64");
    // Spawned binary is `QEMU` itself: never `sh`.
    assert!(program.starts_with("qemu-system-"));
    assert!(argv.contains(&"-serial".to_string()));
    assert!(argv.contains(&"chardev:tty".to_string()));
    assert!(!argv.iter().any(|arg| arg.contains("virtio-serial")));
    assert!(argv.iter().any(|arg| arg.contains("console=ttyS0")));
    assert!(argv.iter().any(|arg| arg.ends_with("ttyS0-42.log")));
    assert!(argv.iter().any(|arg| arg.ends_with("transport-42")));

    let mut virtio_map = base_config(tmpdir, "virtio");
    virtio_map.insert("image", &image);
    virtio_map.insert("kernel", &kernel);
    let virtio = QemuConfig::from_map(&virtio_map, host()).expect("virtio config");
    let (_, argv) = virtio.build_argv(43).expect("virtio argv");
    assert!(argv.contains(&"virtio-serial".to_string()));
    assert!(argv.contains(&"virtconsole,chardev=tty".to_string()));
    assert!(argv.contains(&"virtserialport,chardev=transport".to_string()));
    assert!(!argv.iter().any(|arg| arg == "chardev:tty"));
    assert!(argv.iter().any(|arg| arg.contains("console=hvc0")));

    // Options are split into words, never shelled.
    let mut opts_map = base_config(tmpdir, "isa");
    opts_map.insert("options", "-cpu host -smp 4");
    let opts = QemuConfig::from_map(&opts_map, host()).expect("options config");
    let (_, argv) = opts.build_argv(1).expect("options argv");
    assert!(argv.contains(&"-cpu".to_string()));
    assert!(argv.contains(&"host".to_string()));
}

#[test]
fn retcode_and_quoting_helpers() {
    let (out, retcode) = parse_reply("\nhello\n0-deadbeef\n# ", "deadbeef").expect("parses");
    assert_eq!(out, "hello\n");
    assert_eq!(retcode, 0);
    parse_reply("\nno marker here\n# ", "deadbeef").expect_err("missing marker");
    assert_eq!(shell_quote("/tmp/a b"), "'/tmp/a b'");
    validate_env_key("PATH").expect("valid");
    validate_env_key("9LIVES").expect_err("invalid");
    assert_eq!(
        split_options("-m 2G -append 'a b'").expect("splits"),
        vec!["-m", "2G", "-append", "a b"]
    );
}

#[test]
fn expect_loop_fake_serial() {
    // Leading `\n` mirrors the newline echo of a real serial.
    let mut state = fresh();
    let out = wait_for_message(&mut state, &["\necho hi\n", "0-xyz", "9\n# "], "xyz9", false)
        .expect("marker arrives");
    assert!(out.contains("0-xyz9"));
    let (parsed, retcode) = parse_reply(&out, "xyz9").expect("retcode parses");
    assert_eq!(retcode, 0);
    assert!(parsed.contains("echo hi"));
}

#[test]
fn expect_loop_detects_panic() {
    let mut state = fresh();
    let err = wait_for_message(&mut state, &["boot\nKernel panic - not syncing\n"], "#", false)
        .expect_err("panic raises");
    assert!(matches!(err, KirkError::KernelPanic(_)));
}

#[test]
fn channel_rejects_empty_command_without_kvm() {
    let mut channel = QemuChannel::new();
    channel
        .setup(&base_config("/tmp", "isa"), host())
        .expect("valid config");
    let err = channel.admit_command("").expect_err("empty command");
    assert!(matches!(err, KirkError::Communication(_)));
    let err = channel.admit_fetch("").expect_err("empty target path");
    assert!(matches!(err, KirkError::Communication(_)));
}

#[test]
fn transport_read_caps_size() {
    check_transport_size(16, 0).expect("small read works");
    assert_eq!(transport_end(0, 16).unwrap(), 16);
    check_transport_size(16, 16).expect("read at end");
    assert_eq!(transport_end(16, 0).unwrap(), 16);
}

#[test]
fn transport_read_beyond_cap_fails() {
    let err = check_transport_size(MAX_TRANSPORT_BYTES + 64, 0)
        .expect_err("oversized delta must fail");
    assert!(matches!(err, KirkError::Communication(_)));
    assert!(transport_end(5, MAX_TRANSPORT_BYTES + 1).is_err());
}

#[test]
fn codes_are_fresh_letters_and_digits() {
    let code = generate_code();
    assert_eq!(code.len(), CODE_LEN);
    assert!(code.chars().all(|c| c.is_ascii_alphanumeric()));
    assert_ne!(code, generate_code());
    assert_eq!(exec_line("ls", "abc"), "ls;echo $?-abc\n");
    assert_eq!(exec_line("", "abc"), "echo $?-abc\n");
}

#[test]
fn guest_is_logged_in_step_by_step() {
    let mut cfg = base_config("/tmp", "isa");
    cfg.insert("user", "root");
    cfg.insert("password", "pw");
    cfg.insert("virtfs", "/share");
    let config = QemuConfig::from_map(&cfg, host()).unwrap();
    let steps = login_steps(&config);
    assert!(matches!(&steps[0], LoginStep::Wait { message, shown: true } if message == "login:"));
    assert!(matches!(&steps[1], LoginStep::Type(line) if line == "root\n"));
    assert!(matches!(&steps[3], LoginStep::Type(line) if line == "pw\n"));
    assert!(matches!(
        steps.last().unwrap(),
        LoginStep::Run { command, .. } if command.starts_with("mount -t 9p")
    ));
    assert!(login_outcome("no", 0).is_ok());
    assert!(matches!(login_outcome("no", 1), Err(KirkError::Communication(_))));
}

#[test]
fn commands_are_prepared_step_by_step() {
    let env = map(&[("A", "1 2"), ("B", "x")]);
    let step = setup_step(Some("/tmp/a b"), Some(&env), 0).unwrap().unwrap();
    assert_eq!(step.command, "cd -- '/tmp/a b'");
    assert!(step.outcome("", 0).is_ok());
    assert!(step.outcome("no", 1).is_err());
    let step = setup_step(Some("/tmp"), Some(&env), 1).unwrap().unwrap();
    assert_eq!(step.command, "export A='1 2'");
    assert!(setup_step(Some("/tmp"), Some(&env), 3).is_none());
    let bad = map(&[("1A", "x")]);
    assert!(setup_step(None, Some(&bad), 0).unwrap().is_err());
}

fn started() -> QemuChannel {
    let mut channel = QemuChannel::new();
    channel.setup(&base_config("/tmp", "isa"), host()).unwrap();
    let (program, argv) = channel.communicate(9).unwrap();
    assert_eq!(program, "qemu-system-x86_64");
    assert!(!argv.is_empty());
    channel.observe(true);
    assert!(!channel.logged_in(&Ok(())));
    channel
}

#[test]
fn guest_is_stopped_stage_by_stage() {
    let mut channel = started();
    let mut stages = Vec::new();
    let mut stage = StopStage::Asked;
    while stage != StopStage::Finished {
        stage = channel.stop(stage, true);
        stages.push(stage);
    }
    assert_eq!(
        stages,
        [StopStage::Interrupt, StopStage::PowerOff, StopStage::Kill, StopStage::Finished]
    );
    assert_eq!(StopStage::Interrupt.typed(), Some("\u{3}"));
    let mut idle = QemuChannel::new();
    assert_eq!(idle.stop(StopStage::Asked, false), StopStage::Finished);
}

#[test]
fn panicked_guest_is_killed() {
    let mut channel = started();
    let mut state = channel.begin_wait();
    let err = wait_for_message(&mut state, &["Kernel panic"], "#", false).unwrap_err();
    assert!(matches!(err, KirkError::KernelPanic(_)));
    channel.end_wait(state);
    assert_eq!(channel.stop(StopStage::Asked, true), StopStage::Kill);
}

#[test]
fn running_guest_refuses_a_second_start() {
    let mut channel = started();
    assert!(channel.active());
    assert!(channel.communicate(9).is_err());
    assert!(channel.admit_ping().is_ok());
    assert!(channel.admit_command("ls").is_ok());
    assert_eq!(channel.admit_fetch("/f").unwrap(), "test -f '/f'");
    let (command, path) = channel.send_command("/f", 0, 9).unwrap();
    assert_eq!(command, "cat '/f' > /dev/ttyS1");
    assert!(path.ends_with("transport-9"));
    assert!(channel.send_command("/f", 1, 9).is_err());
    assert_eq!(channel.sent("/dev/ttyS1", "", 9).unwrap(), true);
    assert!(channel.sent("/dev/ttyS1", "no", 2).is_err());
    channel.read_until(40);
    assert_eq!(channel.last_pos(), 40);
    assert_eq!(channel.exec_outcome("\nx\n3-c", "c").unwrap(), ("x\n".to_owned(), 3));
    assert!(channel.write_failed(false, "gone").is_err());
    let missing = QemuChannel::spawn_error("qemu-system-x86_64", true, "no");
    assert!(matches!(missing, KirkError::Communication(_)));
}
