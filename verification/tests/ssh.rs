use kirk::com::{ComChannel, Plugin};
use kirk::errors::KirkError;
use kirk::output::OutputCollector;
use kirk::ssh::{
    build_remote_command, expand_known_hosts, parse_max_sessions, quote_sh, reset_argv,
    session_limit, split_argv, timed_out, Authentication, RemoteBytes, RemoteMsg, RemoteRun,
    SshChannel, SshConfig, DEFAULT_MAX_SESSIONS,
};
use kirk::textmap::TextMap;

fn cfg_with(pairs: &[(&str, &str)]) -> TextMap {
    let mut map = TextMap::new();
    for (key, value) in pairs {
        map.insert(key, value);
    }
    map
}

fn from_map(pairs: &[(&str, &str)]) -> Result<SshConfig, KirkError> {
    SshConfig::from_map(&cfg_with(pairs), Some("/home/u"))
}

#[test]
fn defaults() {
    let cfg = from_map(&[]).ok().unwrap();
    assert_eq!(cfg.host, "localhost");
    assert_eq!(cfg.user, "root");
    assert_eq!(cfg.port, 22);
    assert!(!cfg.sudo);
    assert!(cfg.key_file.is_none());
    assert!(cfg.password.is_none());
    assert!(cfg.reset_cmd.is_none());
    assert_eq!(cfg.known_hosts, "/home/u/.ssh/known_hosts");
}

#[test]
fn bad_ports_rejected() {
    for port in ["0", "65536", "-1", "abc", "22.5", "99999999999999999999"] {
        let err = from_map(&[("port", port)]).err().unwrap();
        assert!(
            matches!(err, KirkError::Communication(_)),
            "port {port}: {err:?}"
        );
    }
    assert_eq!(from_map(&[("port", "2222")]).ok().unwrap().port, 2222);
    assert_eq!(from_map(&[("port", " 22 ")]).ok().unwrap().port, 22);
}

#[test]
fn bad_sudo_rejected() {
    for sudo in ["2", "-1", "yes", "true", ""] {
        if sudo.is_empty() {
            // Empty means unset: defaults to false.
            assert!(!from_map(&[("sudo", sudo)]).ok().unwrap().sudo);
            continue;
        }
        let err = from_map(&[("sudo", sudo)]).err().unwrap();
        assert!(
            matches!(err, KirkError::Communication(_)),
            "sudo {sudo}: {err:?}"
        );
    }
    assert!(from_map(&[("sudo", "1")]).ok().unwrap().sudo);
    assert!(!from_map(&[("sudo", "0")]).ok().unwrap().sudo);
}

#[test]
fn dev_null_known_hosts_rejected() {
    let err = from_map(&[("known_hosts", "/dev/null")]).err().unwrap();
    assert!(matches!(err, KirkError::Communication(_)));
}

#[test]
fn known_hosts_expansion() {
    assert_eq!(
        expand_known_hosts("/etc/ssh/known_hosts", None).unwrap(),
        "/etc/ssh/known_hosts"
    );
    assert_eq!(
        expand_known_hosts("~/.ssh/known_hosts", Some("/home/u")).unwrap(),
        "/home/u/.ssh/known_hosts"
    );
    assert!(expand_known_hosts("~/.ssh/known_hosts", None).is_err());
    assert!(expand_known_hosts("~other/x", Some("/home/u")).is_err());
    assert!(expand_known_hosts("/dev/null", Some("/home/u")).is_err());
}

#[test]
fn debug_redacts_password() {
    let cfg = from_map(&[("password", "s3cr3t")]).ok().unwrap();
    let rendered = cfg.debug_text();
    assert!(!rendered.contains("s3cr3t"));
    assert!(rendered.contains("<redacted>"));
}

#[test]
fn debug_text_quotes_its_fields() {
    let cfg = from_map(&[("host", "a\"b\tc"), ("key_file", "/k")]).ok().unwrap();
    let rendered = cfg.debug_text();
    assert!(rendered.contains(&format!("{:?}", "a\"b\tc")));
    assert!(rendered.contains("Some(\"/k\")"));
}

#[test]
fn quoting() {
    assert_eq!(quote_sh("plain"), "'plain'");
    assert_eq!(quote_sh("a b"), "'a b'");
    assert_eq!(quote_sh("o'clock"), "'o'\\''clock'");
    assert_eq!(quote_sh("x'; rm -rf / #'"), "'x'\\''; rm -rf / #'\\'''");
}

#[test]
fn remote_command_shapes() {
    assert_eq!(build_remote_command("ls", None, None, false).unwrap(), "ls");
    assert_eq!(
        build_remote_command("ls", Some("/tmp/a b"), None, false).unwrap(),
        "cd '/tmp/a b' && ls"
    );
    let env = cfg_with(&[("A", "1"), ("B", "x y")]);
    assert_eq!(
        build_remote_command("ls", None, Some(&env), false).unwrap(),
        "export A='1' && export B='x y' && ls"
    );
    assert_eq!(
        build_remote_command("ls", None, None, true).unwrap(),
        "sudo /bin/sh -c 'ls'"
    );
    let evil = cfg_with(&[("E", "x'; touch pwned; echo '")]);
    let built = build_remote_command("id", None, Some(&evil), false).unwrap();
    assert_eq!(built, "export E='x'\\''; touch pwned; echo '\\''' && id");
    let bad = cfg_with(&[("not valid", "1")]);
    assert!(build_remote_command("id", None, Some(&bad), false).is_err());
    let semi = cfg_with(&[("A;B", "1")]);
    assert!(build_remote_command("id", None, Some(&semi), false).is_err());
}

#[test]
fn max_sessions_parsing() {
    assert_eq!(parse_max_sessions("MaxSessions 4\n"), Some(4));
    assert_eq!(parse_max_sessions("maxsessions 20\n"), Some(20));
    assert_eq!(parse_max_sessions("nothing here\n"), None);
    assert_eq!(parse_max_sessions("MaxSessions nope\n"), None);
}

#[test]
fn session_limit_falls_back() {
    assert_eq!(session_limit(Some("maxsessions 4\n"), None), 4);
    assert_eq!(session_limit(Some("x"), Some("MaxSessions 3\n")), 3);
    assert_eq!(session_limit(None, None), DEFAULT_MAX_SESSIONS);
}

#[test]
fn collector_merges_and_detects_panic() {
    let mut out = OutputCollector::new();
    out.push("hello ");
    out.push("world");
    assert!(!out.panicked());
    out.push("oops Kernel panic");
    assert!(out.panicked());
    let (text, panicked) = out.finish();
    assert_eq!(text, "hello worldoops Kernel panic");
    assert!(panicked);
}

#[test]
fn collector_detects_split_marker() {
    let mut out = OutputCollector::new();
    out.push("boot log Kernel pa");
    assert!(!out.panicked());
    out.push("nic - not syncing");
    assert!(out.panicked());
}

#[test]
fn argv_splitting() {
    assert_eq!(
        split_argv("echo hello world").unwrap(),
        ["echo", "hello", "world"]
    );
    assert_eq!(
        split_argv("echo 'a b' \"c d\"").unwrap(),
        ["echo", "a b", "c d"]
    );
    assert!(split_argv("echo 'oops").is_err());
    assert_eq!(split_argv("").unwrap(), [] as [String; 0]);
    assert_eq!(reset_argv("reboot -f").unwrap(), ["reboot", "-f"]);
    assert!(reset_argv("").is_err());
}

#[test]
fn remote_run_is_collected() {
    let mut run = RemoteRun::new();
    let (chunk, _) = run.push(&RemoteMsg::Data(b"out\n".to_vec()));
    assert_eq!(chunk.as_deref(), Some("out\n"));
    run.push(&RemoteMsg::Data(b"err\xff".to_vec()));
    run.push(&RemoteMsg::ExitStatus(3));
    run.push(&RemoteMsg::Other);
    let result = run.finish("cmd", 0.5f64.to_bits()).unwrap();
    assert_eq!(result.command, "cmd");
    assert_eq!(result.returncode, 3);
    assert_eq!(result.stdout, format!("out\n{}", String::from_utf8_lossy(b"err\xff")));

    let mut run = RemoteRun::new();
    run.push(&RemoteMsg::Data(b"Kernel panic".to_vec()));
    run.push(&RemoteMsg::Close);
    assert!(matches!(run.finish("cmd", 0), Err(KirkError::KernelPanic(_))));
}

#[test]
fn remote_bytes_are_capped() {
    let mut file = RemoteBytes::new(Some(4));
    assert!(file.push(RemoteMsg::Data(vec![1, 2])).is_ok());
    assert!(file.push(RemoteMsg::Data(vec![3, 4])).is_ok());
    assert!(file.push(RemoteMsg::ExitStatus(0)).is_ok());
    assert_eq!(file.fetched().unwrap(), [1, 2, 3, 4]);

    let mut file = RemoteBytes::new(Some(4));
    assert!(file.push(RemoteMsg::Data(vec![0; 5])).is_err());

    let mut file = RemoteBytes::new(Some(4));
    assert!(file.push(RemoteMsg::ExitStatus(1)).is_ok());
    assert!(file.pinged().is_err());
    assert!(file.fetched().is_err());
}

#[test]
fn channel_life() {
    let mut channel = SshChannel::new("ssh", Some("/home/u"));
    assert_eq!(channel.name(), "ssh");
    assert!(!channel.active());
    assert!(channel.admit_ping().is_err());
    assert!(channel.admit_command("ls", None, None).is_err());
    let cfg = cfg_with(&[("key_file", "/k"), ("reset_cmd", "reboot")]);
    channel.setup(&cfg, Some("/home/u")).unwrap();
    assert_eq!(channel.config().key_file.as_deref(), Some("/k"));
    assert!(matches!(channel.admit_connect(), Ok(Authentication::Key(k)) if k == "/k"));
    assert!(channel.connected(false, 5).is_err());
    assert!(!channel.active());
    channel.connected(true, 5).unwrap();
    assert!(channel.active());
    assert_eq!(channel.max_sessions(), 5);
    assert!(channel.admit_connect().is_err());
    assert_eq!(channel.admit_command("ls", Some("/"), None).unwrap(), "cd '/' && ls");
    assert_eq!(channel.admit_fetch("/a b").unwrap(), "cat -- '/a b'");
    assert_eq!(channel.disconnect().as_deref(), Some("reboot"));
    assert!(!channel.active());
    assert!(matches!(timed_out("ping"), KirkError::Communication(_)));
}
