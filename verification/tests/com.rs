use kirk::com::{Attempt, Attempts, CmdResult, ComChannel, Plugin, Registry};
use kirk::errors::KirkError;
use kirk::ltx::channel::LtxChannel;
use kirk::qemu::channel::QemuChannel;
use kirk::qemu::config::HostPaths;
use kirk::shell::ShellChannel;
use kirk::ssh::SshChannel;
use kirk::textmap::TextMap;

fn channel(name: &str) -> QemuChannel {
    QemuChannel::new().renamed(name)
}

fn configuration() -> (TextMap, HostPaths) {
    let mut cfg = TextMap::new();
    cfg.insert("tmpdir", "/tmp");
    let host = HostPaths {
        tmpdir_is_dir: true,
        image_is_file: true,
        kernel_is_file: true,
        initrd_is_file: true,
        virtfs_is_dir: true,
    };
    (cfg, host)
}

#[test]
fn parallel_flag_defaults_off() {
    assert!(!channel("chan").parallel_execution());
}

#[test]
fn register_and_clones() {
    let mut registry = Registry::new();
    registry.register(channel("b-chan"));
    registry.register(channel("a-chan"));

    assert_eq!(registry.names(), vec!["b-chan", "a-chan"]);

    registry
        .clone_channel("a-chan", "newchan")
        .expect("clone known channel");
    assert!(registry.names().contains(&"newchan".to_string()));

    let err = registry
        .clone_channel("missing", "other")
        .expect_err("unknown channel must error");
    assert!(matches!(err, KirkError::Plugin(_)));
    assert_eq!(registry.get_channels().len(), 3);
}

#[test]
fn clone_renames() {
    let original = channel("original");
    let cloned = original.renamed("newchan");

    assert_eq!(cloned.name(), "newchan");
    assert_eq!(original.name(), "original");
    assert!(cloned.config_help().contains_key("image"));
}

#[test]
fn clone_preserves_setup_flag() {
    let mut original = channel("original");
    assert!(original.configured().is_err());
    let (cfg, host) = configuration();
    original.setup(&cfg, host).expect("setup succeeds");
    let cloned = original.renamed("copy");

    assert_eq!(cloned.name(), "copy");
    assert!(cloned.configured().is_ok());
}

fn ensure(failures: u32, retries: u32) -> (bool, u32, u32) {
    let mut attempts = Attempts::new(retries);
    let mut calls = 0;
    let mut stops = 0;
    loop {
        calls += 1;
        match attempts.record(calls > failures) {
            Attempt::Done => return (true, calls, stops),
            Attempt::StopAndRetry => stops += 1,
            Attempt::GiveUp => return (false, calls, stops),
        }
    }
}

#[test]
fn ensure_communicate_retries_then_succeeds() {
    assert_eq!(ensure(2, 10), (true, 3, 2));
}

#[test]
fn ensure_communicate_reraises_with_single_retry() {
    assert_eq!(ensure(1, 1), (false, 1, 0));
    assert_eq!(ensure(1, 0), (false, 1, 0));
}

#[test]
fn ensure_communicate_exhausts_retries() {
    assert_eq!(ensure(10, 3), (false, 3, 2));
}

fn assert_capability_honest<C: ComChannel>(name: &str, channel: &C) {
    assert!(
        !channel.parallel_execution() || channel.concurrent_handle().is_some(),
        "{name}: parallel execution without a concurrent handle",
    );
}

#[test]
fn shell_honors_parallel_execution_capability() {
    assert_capability_honest("shell", &ShellChannel::new());
    assert!(ShellChannel::new().parallel_execution());
}

#[test]
fn ssh_honors_parallel_execution_capability() {
    assert_capability_honest("ssh", &SshChannel::new("ssh", None));
}

#[test]
fn qemu_honors_parallel_execution_capability() {
    assert_capability_honest("qemu", &QemuChannel::new());
    assert!(!QemuChannel::new().parallel_execution());
}

#[test]
fn ltx_honors_parallel_execution_capability() {
    assert_capability_honest("ltx", &LtxChannel::new());
}

#[test]
fn command_results_carry_their_parts() {
    let result = CmdResult {
        command: "ls".to_owned(),
        returncode: 2,
        stdout: "out".to_owned(),
        exec_time: 0.5f64.to_bits(),
    };
    assert_eq!(result.clone(), result);
}
